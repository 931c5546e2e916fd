//! Running totals per entity, and the ordered map that keeps them by code.

use vstd::prelude::*;
use crate::error::Error;
use crate::record::{round_labels, round_points, SeasonRecord};

verus! {

/// The sum of a run of scores; 0 for the empty run.
pub open spec fn sum(points: Seq<nat>) -> nat
    decreases points.len(),
{
    if points.len() == 0 {
        0
    } else {
        sum(points.drop_last()) + points.last()
    }
}

/// The running totals of a run of scores: as many as there are scores, the
/// one at `i` being the sum of the scores up to and including `i`.
pub open spec fn cumulative(points: Seq<nat>) -> Seq<nat> {
    Seq::new(points.len(), |i: int| sum(points.take(i + 1)))
}

/// A longer prefix of a run of scores sums to no less than a shorter one.
pub proof fn lemma_sum_grows(points: Seq<nat>, a: int, b: int)
    requires
        0 <= a <= b <= points.len(),
    ensures
        sum(points.take(a)) <= sum(points.take(b)),
    decreases b - a,
{
    if a < b {
        assert(points.take(b).drop_last() =~= points.take(b - 1));
        lemma_sum_grows(points, a, b - 1);
    }
}

/// A series has one total per round, and its last total is the sum of all
/// the rounds' scores.
pub proof fn lemma_cumulative_ends_in_sum(points: Seq<nat>)
    ensures
        cumulative(points).len() == points.len(),
        points.len() > 0 ==> cumulative(points).last() == sum(points),
{
    if points.len() > 0 {
        assert(points.take(points.len() as int) =~= points);
    }
}

/// A series never decreases from one round to a later one.
pub proof fn lemma_cumulative_is_monotone(points: Seq<nat>, a: int, b: int)
    requires
        0 <= a <= b < points.len(),
    ensures
        cumulative(points)[a] <= cumulative(points)[b],
{
    lemma_sum_grows(points, a + 1, b + 1);
}

/// The running totals of one entity over a season, in thousandths of a
/// point, one per round.
#[derive(Debug, PartialEq, Eq)]
pub struct CumulativeSeries {
    totals: Vec<u128>,
}

impl View for CumulativeSeries {
    type V = Seq<nat>;

    /// The totals in round order, in thousandths of a point.
    closed spec fn view(&self) -> Seq<nat> {
        self.totals@.map_values(|total: u128| total as nat)
    }
}

impl Clone for CumulativeSeries {
    fn clone(&self) -> (copy: Self)
        ensures
            copy@ == self@,
    {
        let mut totals: Vec<u128> = Vec::new();
        let mut at: usize = 0;
        while at < self.totals.len()
            invariant
                at <= self.totals.len(),
                totals@ == self.totals@.take(at as int),
            decreases self.totals.len() - at,
        {
            totals.push(self.totals[at]);
            assert(self.totals@.take(at + 1) =~= self.totals@.take(at as int).push(
                self.totals@[at as int],
            ));
            at += 1;
        }
        assert(self.totals@.take(at as int) =~= self.totals@);
        CumulativeSeries { totals }
    }
}

impl CumulativeSeries {
    /// Folds the scores of `records`, in the order given, into running
    /// totals. The sums are exact and cannot overflow.
    pub fn of(records: &Vec<SeasonRecord>) -> (series: CumulativeSeries)
        ensures
            series@ == cumulative(round_points(records@)),
    {
        let ghost points = round_points(records@);
        let mut totals: Vec<u128> = Vec::new();
        let mut running: u128 = 0;
        let mut at: usize = 0;
        assert(points.take(0) =~= Seq::<nat>::empty());
        while at < records.len()
            invariant
                at <= records.len(),
                points == round_points(records@),
                totals.len() == at,
                running == sum(points.take(at as int)),
                running <= at * u64::MAX,
                forall|i: int| 0 <= i < at ==> (#[trigger] totals[i]) == sum(points.take(i + 1)),
            decreases records.len() - at,
        {
            let scored = records[at].points.thousandths();
            proof {
                let next = points.take(at + 1);
                assert(next.drop_last() =~= points.take(at as int));
                assert(next.last() == scored);
            }
            running = running + scored as u128;
            totals.push(running);
            at += 1;
        }
        let series = CumulativeSeries { totals };
        assert(series@ =~= cumulative(points));
        series
    }

    /// The number of rounds.
    pub fn len(&self) -> (len: usize)
        ensures
            len == self@.len(),
    {
        self.totals.len()
    }

    /// The total after round `i`, in thousandths of a point.
    pub fn total_at(&self, i: usize) -> (total: u128)
        requires
            i < self@.len(),
        ensures
            total == self@[i as int],
    {
        self.totals[i]
    }

    /// The total after round `i`, in thousandths of a point, where there is
    /// such a round.
    pub fn get(&self, i: usize) -> (total: Option<u128>)
        ensures
            match total {
                Some(total) => i < self@.len() && total == self@[i as int],
                None => i >= self@.len(),
            },
    {
        if i < self.totals.len() {
            Some(self.totals[i])
        } else {
            None
        }
    }

    /// All totals in round order, in thousandths of a point.
    pub fn to_thousandths(&self) -> (totals: Vec<u128>)
        ensures
            totals@.map_values(|total: u128| total as nat) == self@,
    {
        let copy = self.clone();
        copy.totals
    }
}

/// One entity with its validated records, in round order.
#[derive(Debug, Clone, PartialEq, Eq)]
pub struct EntityRecords {
    /// The code that identifies the entity within a response.
    pub code: String,
    /// One record per completed round, earliest first.
    pub records: Vec<SeasonRecord>,
}

/// One entity as a mathematical value.
pub ghost struct EntityView {
    /// The entity's code.
    pub code: Seq<char>,
    /// The labels of its rounds, in round order.
    pub labels: Seq<Seq<char>>,
    /// Its scores by round, in thousandths of a point.
    pub points: Seq<nat>,
}

impl View for EntityRecords {
    type V = EntityView;

    open spec fn view(&self) -> EntityView {
        EntityView {
            code: self.code@,
            labels: round_labels(self.records@),
            points: round_points(self.records@),
        }
    }
}

/// The values of a run of entities, in order.
pub open spec fn entity_views(entities: Seq<EntityRecords>) -> Seq<EntityView> {
    entities.map_values(|entity: EntityRecords| entity@)
}

/// One entry of a series map as a mathematical value.
pub ghost struct EntryView {
    /// The entity's code.
    pub code: Seq<char>,
    /// Its running totals in thousandths of a point.
    pub totals: Seq<nat>,
}

/// Whether some entry of `entries` has the code `code`.
pub open spec fn has_code(entries: Seq<EntryView>, code: Seq<char>) -> bool {
    exists|i: int| 0 <= i < entries.len() && (#[trigger] entries[i]).code == code
}

/// Where `code` stands in `entries`, if it stands there.
pub open spec fn index_of_code(entries: Seq<EntryView>, code: Seq<char>) -> int {
    choose|i: int| 0 <= i < entries.len() && (#[trigger] entries[i]).code == code
}

/// Whether no two entries share a code.
pub open spec fn distinct_codes(entries: Seq<EntryView>) -> bool {
    forall|i: int, j: int|
        0 <= i < j < entries.len() ==> (#[trigger] entries[i]).code != (#[trigger] entries[j]).code
}

/// The totals kept under `code`, if any are.
pub open spec fn lookup(entries: Seq<EntryView>, code: Seq<char>) -> Option<Seq<nat>> {
    if has_code(entries, code) {
        Some(entries[index_of_code(entries, code)].totals)
    } else {
        None
    }
}

/// `entries` with `totals` kept under `code`: a code that is already there
/// keeps its place and gets the new totals, a new code goes to the end.
pub open spec fn inserted(entries: Seq<EntryView>, code: Seq<char>, totals: Seq<nat>) -> Seq<
    EntryView,
> {
    if has_code(entries, code) {
        entries.update(index_of_code(entries, code), EntryView { code, totals })
    } else {
        entries.push(EntryView { code, totals })
    }
}

/// The series map of a run of entities: each entity's running totals kept
/// under its code, in the order in which the codes first occur.
pub open spec fn series_map_of(entities: Seq<EntityView>) -> Seq<EntryView>
    decreases entities.len(),
{
    if entities.len() == 0 {
        Seq::empty()
    } else {
        inserted(
            series_map_of(entities.drop_last()),
            entities.last().code,
            cumulative(entities.last().points),
        )
    }
}

/// Inserting keeps codes distinct, keeps what is there under other codes,
/// and puts the new totals under the given code.
pub proof fn lemma_inserted(entries: Seq<EntryView>, code: Seq<char>, totals: Seq<nat>)
    requires
        distinct_codes(entries),
    ensures
        distinct_codes(inserted(entries, code, totals)),
        lookup(inserted(entries, code, totals), code) == Some(totals),
        forall|other: Seq<char>|
            other != code ==> lookup(inserted(entries, code, totals), other) == lookup(
                entries,
                other,
            ),
        inserted(entries, code, totals).len() == entries.len() + (if has_code(entries, code) {
            0int
        } else {
            1int
        }),
{
    let after = inserted(entries, code, totals);
    let at = if has_code(entries, code) {
        index_of_code(entries, code)
    } else {
        entries.len() as int
    };
    assert(after[at].code == code);
    assert forall|i: int| 0 <= i < after.len() && i != at implies (#[trigger] after[i])
        == entries[i] && after[i].code != code by {}
    assert(distinct_codes(after)) by {
        assert forall|i: int, j: int| 0 <= i < j < after.len() implies (#[trigger] after[i]).code != (
        #[trigger] after[j]).code by {
            if i != at && j != at {
                assert(entries[i].code != entries[j].code);
            }
        }
    }
    assert(has_code(after, code));
    assert(index_of_code(after, code) == at);
    assert forall|other: Seq<char>| other != code implies lookup(after, other) == lookup(
        entries,
        other,
    ) by {
        if has_code(entries, other) {
            let k = index_of_code(entries, other);
            assert(after[k].code == other);
            assert(has_code(after, other));
            let k2 = index_of_code(after, other);
            assert(k2 != at);
            assert(after[k2] == entries[k2]);
            if k2 < k {
                assert(entries[k2].code != entries[k].code);
            } else if k < k2 {
                assert(entries[k].code != entries[k2].code);
            }
        } else if has_code(after, other) {
            let k2 = index_of_code(after, other);
            assert(entries[k2].code == other);
        }
    }
}

/// The series map of any run of entities has distinct codes.
pub proof fn lemma_series_map_has_distinct_codes(entities: Seq<EntityView>)
    ensures
        distinct_codes(series_map_of(entities)),
    decreases entities.len(),
{
    if entities.len() > 0 {
        lemma_series_map_has_distinct_codes(entities.drop_last());
        lemma_inserted(
            series_map_of(entities.drop_last()),
            entities.last().code,
            cumulative(entities.last().points),
        );
    }
}

/// The map keeps, under each code, the series of the last entity that
/// carries it.
pub proof fn lemma_series_map_keeps_last(entities: Seq<EntityView>, i: int)
    requires
        0 <= i < entities.len(),
        forall|j: int| i < j < entities.len() ==> (#[trigger] entities[j]).code != entities[i].code,
    ensures
        lookup(series_map_of(entities), entities[i].code) == Some(cumulative(entities[i].points)),
    decreases entities.len(),
{
    let rest = entities.drop_last();
    lemma_series_map_has_distinct_codes(rest);
    lemma_inserted(series_map_of(rest), entities.last().code, cumulative(entities.last().points));
    if i < entities.len() - 1 {
        assert(rest[i] == entities[i]);
        assert forall|j: int| i < j < rest.len() implies (#[trigger] rest[j]).code
            != rest[i].code by {
            assert(rest[j] == entities[j]);
        }
        lemma_series_map_keeps_last(rest, i);
        assert(entities.last() == entities[entities.len() - 1]);
    }
}

/// For every entity whose code no later entity carries, the map holds a
/// series with one total per round of that entity, never decreasing, whose
/// last total is the sum of the entity's scores over all rounds.
pub proof fn lemma_series_of_each_entity(entities: Seq<EntityView>, i: int)
    requires
        0 <= i < entities.len(),
        forall|j: int| i < j < entities.len() ==> (#[trigger] entities[j]).code != entities[i].code,
    ensures
        lookup(series_map_of(entities), entities[i].code) is Some,
        ({
            let series = lookup(series_map_of(entities), entities[i].code)->0;
            let points = entities[i].points;
            &&& series.len() == points.len()
            &&& points.len() > 0 ==> series.last() == sum(points)
            &&& forall|a: int, b: int| 0 <= a <= b < series.len() ==> series[a] <= series[b]
        }),
{
    lemma_series_map_keeps_last(entities, i);
    let points = entities[i].points;
    lemma_cumulative_ends_in_sum(points);
    assert forall|a: int, b: int| 0 <= a <= b < points.len() implies cumulative(points)[a]
        <= cumulative(points)[b] by {
        lemma_cumulative_is_monotone(points, a, b);
    }
}

/// Where no two entities share a code, the map has one entry per entity, in
/// the entities' order.
pub proof fn lemma_series_map_of_distinct(entities: Seq<EntityView>)
    requires
        forall|i: int, j: int|
            0 <= i < j < entities.len() ==> (#[trigger] entities[i]).code != (
            #[trigger] entities[j]).code,
    ensures
        series_map_of(entities).len() == entities.len(),
        forall|i: int|
            0 <= i < entities.len() ==> (#[trigger] series_map_of(entities)[i]) == (EntryView {
                code: entities[i].code,
                totals: cumulative(entities[i].points),
            }),
    decreases entities.len(),
{
    if entities.len() > 0 {
        let rest = entities.drop_last();
        assert forall|i: int, j: int| 0 <= i < j < rest.len() implies (#[trigger] rest[i]).code != (
        #[trigger] rest[j]).code by {
            assert(rest[i] == entities[i] && rest[j] == entities[j]);
        }
        lemma_series_map_of_distinct(rest);
        let before = series_map_of(rest);
        let code = entities.last().code;
        if has_code(before, code) {
            let k = index_of_code(before, code);
            assert(before[k].code == rest[k].code);
            assert(rest[k] == entities[k]);
            assert(entities[k].code != entities[entities.len() - 1].code);
        }
        assert forall|i: int| 0 <= i < entities.len() implies (#[trigger] series_map_of(
            entities,
        )[i]) == (EntryView { code: entities[i].code, totals: cumulative(entities[i].points) }) by {
            if i < rest.len() {
                assert(series_map_of(entities)[i] == before[i]);
                assert(rest[i] == entities[i]);
            }
        }
    }
}

/// One entry of a series map.
#[derive(Debug, PartialEq, Eq)]
struct SeriesEntry {
    code: String,
    series: CumulativeSeries,
}

impl View for SeriesEntry {
    type V = EntryView;

    closed spec fn view(&self) -> EntryView {
        EntryView { code: self.code@, totals: self.series@ }
    }
}

/// Running totals by entity code. No code occurs twice, and the entries keep
/// the order in which their codes were first inserted.
#[derive(Debug, PartialEq, Eq)]
pub struct SeriesMap {
    entries: Vec<SeriesEntry>,
}

impl View for SeriesMap {
    type V = Seq<EntryView>;

    /// The entries in insertion order.
    closed spec fn view(&self) -> Seq<EntryView> {
        self.entries@.map_values(|entry: SeriesEntry| entry@)
    }
}

impl SeriesMap {
    #[verifier::type_invariant]
    spec fn codes_are_distinct(&self) -> bool {
        distinct_codes(self@)
    }

    /// The map without entries.
    pub fn new() -> (map: SeriesMap)
        ensures
            map@ == Seq::<EntryView>::empty(),
    {
        let map = SeriesMap { entries: Vec::new() };
        assert(map@ =~= Seq::<EntryView>::empty());
        map
    }

    /// The number of entries.
    pub fn len(&self) -> (len: usize)
        ensures
            len == self@.len(),
            distinct_codes(self@),
    {
        proof {
            use_type_invariant(self);
        }
        self.entries.len()
    }

    /// The code of the entry at `i`.
    pub fn code_at(&self, i: usize) -> (code: &String)
        requires
            i < self@.len(),
        ensures
            code@ == self@[i as int].code,
    {
        &self.entries[i].code
    }

    /// The series of the entry at `i`.
    pub fn series_at(&self, i: usize) -> (series: &CumulativeSeries)
        requires
            i < self@.len(),
        ensures
            series@ == self@[i as int].totals,
    {
        &self.entries[i].series
    }

    /// Where the entry with the code `code` stands, if there is one.
    pub fn position(&self, code: &str) -> (position: Option<usize>)
        ensures
            position is Some <==> has_code(self@, code@),
            position matches Some(i) ==> i == index_of_code(self@, code@) && i < self@.len()
                && self@[i as int].code == code@,
    {
        proof {
            use_type_invariant(self);
        }
        let wanted = code.to_owned();
        let mut at: usize = 0;
        while at < self.entries.len()
            invariant
                at <= self.entries.len(),
                wanted@ == code@,
                distinct_codes(self@),
                forall|j: int| 0 <= j < at ==> (#[trigger] self@[j]).code != code@,
            decreases self.entries.len() - at,
        {
            if self.entries[at].code == wanted {
                proof {
                    assert(self@[at as int].code == code@);
                    let k = index_of_code(self@, code@);
                    if k < at {
                        assert(self@[k].code != self@[at as int].code);
                    } else if at < k {
                        assert(self@[at as int].code != self@[k].code);
                    }
                }
                return Some(at);
            }
            at += 1;
        }
        None
    }

    /// The series kept under `code`, if there is one.
    pub fn get(&self, code: &str) -> (series: Option<&CumulativeSeries>)
        ensures
            match series {
                Some(series) => lookup(self@, code@) == Some(series@),
                None => lookup(self@, code@) is None,
            },
    {
        match self.position(code) {
            Some(i) => Some(&self.entries[i].series),
            None => None,
        }
    }

    /// Keeps `series` under `code`. A code that is already there keeps its
    /// place and gets the new series; a new code goes to the end.
    pub fn insert(&mut self, code: String, series: CumulativeSeries)
        ensures
            final(self)@ == inserted(old(self)@, code@, series@),
    {
        proof {
            use_type_invariant(&*self);
            lemma_inserted(self@, code@, series@);
        }
        let ghost before = self@;
        let position = self.position(code.as_str());
        let mut entries: Vec<SeriesEntry> = Vec::new();
        core::mem::swap(&mut entries, &mut self.entries);
        match position {
            Some(i) => {
                entries[i] = SeriesEntry { code, series };
            },
            None => {
                entries.push(SeriesEntry { code, series });
            },
        }
        assert(entries@.map_values(|entry: SeriesEntry| entry@) =~= inserted(
            before,
            code@,
            series@,
        ));
        self.entries = entries;
    }
}

/// The texts of a run of strings, in order.
pub open spec fn texts(strings: Seq<String>) -> Seq<Seq<char>> {
    strings.map_values(|string: String| string@)
}

/// Builds the chart's data from validated records.
pub struct CumulativeSeriesBuilder;

impl CumulativeSeriesBuilder {
    /// The round labels of a run of records, in order.
    pub fn labels(records: &Vec<SeasonRecord>) -> (labels: Vec<String>)
        ensures
            texts(labels@) == round_labels(records@),
    {
        let mut labels: Vec<String> = Vec::new();
        let mut at: usize = 0;
        while at < records.len()
            invariant
                at <= records.len(),
                labels.len() == at,
                forall|i: int| 0 <= i < at ==> (#[trigger] labels[i])@ == records[i].round@,
            decreases records.len() - at,
        {
            labels.push(records[at].round.clone());
            at += 1;
        }
        assert(texts(labels@) =~= round_labels(records@));
        labels
    }

    /// Turns each entity's records into running totals, kept by code in the
    /// order of the entities, and takes the round labels from the first
    /// entity alone. Fails with `EmptyInput` exactly where no entity is
    /// given. The input is left as it is.
    pub fn build(entities: &Vec<EntityRecords>) -> (built: Result<(SeriesMap, Vec<String>), Error>)
        ensures
            built is Err <==> entities.len() == 0,
            built matches Err(error) ==> error == Error::EmptyInput,
            built matches Ok((map, labels)) ==> {
                &&& map@ == series_map_of(entity_views(entities@))
                &&& texts(labels@) == entities[0]@.labels
            },
    {
        if entities.len() == 0 {
            return Err(Error::EmptyInput);
        }
        let mut map = SeriesMap::new();
        let mut at: usize = 0;
        let ghost all = entity_views(entities@);
        assert(all.take(0) =~= Seq::<EntityView>::empty());
        while at < entities.len()
            invariant
                at <= entities.len(),
                all == entity_views(entities@),
                map@ == series_map_of(all.take(at as int)),
            decreases entities.len() - at,
        {
            let series = CumulativeSeries::of(&entities[at].records);
            proof {
                let next = all.take(at + 1);
                assert(next.drop_last() =~= all.take(at as int));
                assert(next.last() == entities[at as int]@);
            }
            map.insert(entities[at].code.clone(), series);
            at += 1;
        }
        assert(all.take(at as int) =~= all);
        let labels = CumulativeSeriesBuilder::labels(&entities[0].records);
        Ok((map, labels))
    }
}

} // verus!
