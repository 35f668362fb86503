//! The store of one loaded batch of records: one span-keyed map per symptom.
use crate::date_map::{in_window, sorted_disjoint, BTreeDateMap};
use crate::scatter_plot::{DateTimeValuePoint, ScatterPlot};
use crate::symptom::Symptom;
use crate::text::same_text;
use crate::time::OrderedNaiveDateTimeSpan;
use crate::time_of_day::SpanError;
use vstd::prelude::*;

verus! {

/// The record at `j` of `records` is still stored once all of them are
/// inserted: no later record of the same symptom has a span that overlaps its
/// span.
pub open spec fn survives(records: Seq<Symptom>, j: int) -> bool {
    forall|k: int|
        #![trigger records[k]]
        j < k < records.len() && records[k].name@ == records[j].name@ ==> !records[k].span_spec()->Ok_0.overlaps(
            records[j].span_spec()->Ok_0,
        )
}

/// The entries stored for symptom `name` once `records` are inserted in order:
/// each record of that symptom that survives, under its span.
pub open spec fn stored_entries(records: Seq<Symptom>, name: Seq<char>) -> Set<
    (OrderedNaiveDateTimeSpan, Symptom),
> {
    Set::new(
        |e: (OrderedNaiveDateTimeSpan, Symptom)|
            exists|j: int|
                0 <= j < records.len() && records[j].name@ == name && survives(records, j) && e == (
                    records[j].span_spec()->Ok_0,
                    records[j],
                ),
    )
}

/// The symptom names that occur in `records`.
pub open spec fn names_in(records: Seq<Symptom>) -> Set<Seq<char>> {
    Set::new(|name: Seq<char>| exists|j: int| 0 <= j < records.len() && records[j].name@ == name)
}

/// The chart points of `entries`: where each span starts, with the severity
/// of its record.
pub open spec fn points_of(entries: Seq<(OrderedNaiveDateTimeSpan, Symptom)>) -> Seq<
    DateTimeValuePoint,
> {
    entries.map_values(
        |e: (OrderedNaiveDateTimeSpan, Symptom)| DateTimeValuePoint { x: e.0.start, y: e.1.severity },
    )
}

/// Appending one record with a span leaves, for its symptom, the entries that
/// survived before and do not overlap its span, plus the record itself; the
/// other symptoms keep their entries.
proof fn lemma_stored_entries_push(records: Seq<Symptom>, r: Symptom, name: Seq<char>)
    requires
        r.span_spec() is Ok,
    ensures
        stored_entries(records.push(r), name) == (if name == r.name@ {
            stored_entries(records, name).filter(
                |e: (OrderedNaiveDateTimeSpan, Symptom)| !e.0.overlaps(r.span_spec()->Ok_0),
            ).insert((r.span_spec()->Ok_0, r))
        } else {
            stored_entries(records, name)
        }),
        names_in(records.push(r)) == names_in(records).insert(r.name@),
{
    let after = records.push(r);
    let span = r.span_spec()->Ok_0;
    assert forall|j: int| 0 <= j < records.len() implies survives(after, j) == (survives(records, j)
        && !(records[j].name@ == r.name@ && records[j].span_spec()->Ok_0.overlaps(span))) by {
        if survives(after, j) {
            assert forall|k: int|
                #![trigger records[k]]
                j < k < records.len() && records[k].name@ == records[j].name@ implies !records[k].span_spec()->Ok_0.overlaps(
                records[j].span_spec()->Ok_0,
            ) by {
                assert(after[k] == records[k]);
            }
            assert(after[records.len() as int] == r);
        }
        if survives(records, j) && !(records[j].name@ == r.name@
            && records[j].span_spec()->Ok_0.overlaps(span)) {
            assert forall|k: int|
                #![trigger after[k]]
                j < k < after.len() && after[k].name@ == after[j].name@ implies !after[k].span_spec()->Ok_0.overlaps(
                after[j].span_spec()->Ok_0,
            ) by {
                if k < records.len() {
                    assert(after[k] == records[k]);
                }
            }
        }
    }
    assert(survives(after, records.len() as int));
    let expected = if name == r.name@ {
        stored_entries(records, name).filter(
            |e: (OrderedNaiveDateTimeSpan, Symptom)| !e.0.overlaps(span),
        ).insert((span, r))
    } else {
        stored_entries(records, name)
    };
    assert forall|e: (OrderedNaiveDateTimeSpan, Symptom)|
        stored_entries(after, name).contains(e) <==> expected.contains(e) by {
        if stored_entries(after, name).contains(e) {
            let j = choose|j: int|
                0 <= j < after.len() && after[j].name@ == name && survives(after, j) && e == (
                    after[j].span_spec()->Ok_0,
                    after[j],
                );
            if j < records.len() {
                assert(after[j] == records[j]);
                assert(stored_entries(records, name).contains(e));
            }
        }
        if expected.contains(e) {
            if name == r.name@ && e == (span, r) {
                assert(after[records.len() as int] == r);
            } else {
                let j = choose|j: int|
                    0 <= j < records.len() && records[j].name@ == name && survives(records, j) && e
                        == (records[j].span_spec()->Ok_0, records[j]);
                assert(after[j] == records[j]);
            }
        }
    }
    assert(stored_entries(after, name) =~= expected);
    assert forall|n: Seq<char>| names_in(after).contains(n) <==> names_in(records).insert(
        r.name@,
    ).contains(n) by {
        if names_in(after).contains(n) {
            let j = choose|j: int| 0 <= j < after.len() && after[j].name@ == n;
            if j < records.len() {
                assert(after[j] == records[j]);
            }
        }
        if names_in(records).contains(n) {
            let j = choose|j: int| 0 <= j < records.len() && records[j].name@ == n;
            assert(after[j] == records[j]);
        }
        if n == r.name@ {
            assert(after[records.len() as int] == r);
        }
    }
    assert(names_in(after) =~= names_in(records).insert(r.name@));
}

/// A store built from a batch lists each symptom name of the batch once, and
/// no other: it has as many names as the batch has distinct ones.
pub proof fn lemma_one_name_per_symptom(records: Seq<Symptom>, store: DataManager)
    requires
        store.wf(),
        store.holds(records),
    ensures
        store.names().no_duplicates(),
        store.names().to_set() == names_in(records),
        store.names().len() == names_in(records).len(),
{
    let names = store.names();
    assert forall|i: int, j: int| 0 <= i < names.len() && 0 <= j < names.len() && i != j implies names[i]
        != names[j] by {
        if i < j {
            assert(store@[i].0 != store@[j].0);
        } else {
            assert(store@[j].0 != store@[i].0);
        }
    }
    assert forall|name: Seq<char>| names.to_set().contains(name) <==> names_in(records).contains(name) by {
        assert(names.contains(name) == names.to_set().contains(name));
        assert(store.names().contains(name) <==> names_in(records).contains(name));
    }
    assert(names.to_set() =~= names_in(records));
    names.unique_seq_to_set();
}

/// Records grouped by symptom name, each group in a map keyed by the span of
/// each record. A store is built once from a batch and only read afterwards.
pub struct DataManager {
    symptoms: Vec<(String, BTreeDateMap<Symptom>)>,
}

impl View for DataManager {
    /// Each symptom's name with the entries of its map, in order of first
    /// appearance in the batch.
    type V = Seq<(Seq<char>, Seq<(OrderedNaiveDateTimeSpan, Symptom)>)>;

    closed spec fn view(&self) -> Self::V {
        self.symptoms@.map_values(
            |p: (String, BTreeDateMap<Symptom>)| (p.0@, p.1@),
        )
    }
}

impl DataManager {
    /// The symptom names, in order of first appearance.
    pub open spec fn names(&self) -> Seq<Seq<char>> {
        self@.map_values(|p: (Seq<char>, Seq<(OrderedNaiveDateTimeSpan, Symptom)>)| p.0)
    }

    /// The entries stored for symptom `name`, or `None` if it has none.
    pub open spec fn category(&self, name: Seq<char>) -> Option<
        Seq<(OrderedNaiveDateTimeSpan, Symptom)>,
    > {
        if exists|i: int| 0 <= i < self@.len() && self@[i].0 == name {
            Some(self@[choose|i: int| 0 <= i < self@.len() && self@[i].0 == name].1)
        } else {
            None
        }
    }

    /// Names are unique; each map is non-empty, with disjoint keys in
    /// ascending order, and holds only records of its symptom, each under
    /// its own span.
    pub open spec fn wf(&self) -> bool {
        &&& forall|i: int, j: int|
            0 <= i < j < self@.len() ==> (#[trigger] self@[i]).0 != (#[trigger] self@[j]).0
        &&& forall|i: int|
            #![trigger self@[i]]
            0 <= i < self@.len() ==> {
                &&& sorted_disjoint(self@[i].1)
                &&& self@[i].1.len() > 0
                &&& forall|k: int|
                    #![trigger self@[i].1[k]]
                    0 <= k < self@[i].1.len() ==> self@[i].1[k].1.name@ == self@[i].0
                        && self@[i].1[k].1.span_spec() == Ok::<
                        OrderedNaiveDateTimeSpan,
                        SpanError,
                    >(self@[i].1[k].0)
            }
    }

    /// The store holds exactly what inserting `records` in order leaves: one
    /// map for each symptom that occurs in them, holding the entries that
    /// survive.
    pub open spec fn holds(&self, records: Seq<Symptom>) -> bool {
        &&& forall|name: Seq<char>|
            #![trigger self.names().contains(name)]
            self.names().contains(name) <==> names_in(records).contains(name)
        &&& forall|i: int|
            #![trigger self@[i]]
            0 <= i < self@.len() ==> self@[i].1.to_set() == stored_entries(records, self@[i].0)
    }

    /// Builds the store from a batch: each record goes, under its span, into
    /// the map of its symptom, dropping the entries whose spans it overlaps.
    /// Fails, with no store, if any record has no span.
    pub fn from(symptoms: Vec<Symptom>) -> (r: Result<DataManager, SpanError>)
        ensures
            r is Err <==> exists|j: int|
                0 <= j < symptoms@.len() && (#[trigger] symptoms@[j]).span_spec() is Err,
            r matches Err(e) ==> e == SpanError::UnsupportedTimeOfDay,
            r matches Ok(m) ==> m.wf() && m.holds(symptoms@),
    {
        let ghost records = symptoms@;
        let mut store = DataManager { symptoms: Vec::new() };
        proof {
            assert(store@ =~= Seq::<(Seq<char>, Seq<(OrderedNaiveDateTimeSpan, Symptom)>)>::empty());
            assert(records.subrange(0, 0) =~= Seq::<Symptom>::empty());
            assert forall|name: Seq<char>| !names_in(records.subrange(0, 0)).contains(name) by {}
        }
        for symptom in iter: symptoms
            invariant
                iter.seq() == records,
                store.wf(),
                store.holds(records.subrange(0, iter.index() as int)),
                forall|j: int| 0 <= j < iter.index() ==> (#[trigger] records[j]).span_spec() is Ok,
        {
            let ghost i = iter.index() as int;
            let ghost done = records.subrange(0, i);
            assert(records[i] == symptom);
            let span = match symptom.date_time_span() {
                Ok(span) => span,
                Err(e) => {
                    return Err(e);
                },
            };
            let ghost old_view = store@;
            let ghost name = symptom.name@;
            assert(records.subrange(0, i + 1) =~= done.push(symptom));
            proof {
                assert forall|c: Seq<char>| true implies #[trigger] stored_entries(
                    done.push(symptom),
                    c,
                ) == (if c == name {
                    stored_entries(done, c).filter(
                        |e: (OrderedNaiveDateTimeSpan, Symptom)| !e.0.overlaps(span),
                    ).insert((span, symptom))
                } else {
                    stored_entries(done, c)
                }) by {
                    lemma_stored_entries_push(done, symptom, c);
                }
                lemma_stored_entries_push(done, symptom, name);
            }
            let ghost old_names = store.names();
            proof {
                assert forall|c: Seq<char>| old_names.contains(c) <==> names_in(done).contains(c) by {
                    assert(store.names().contains(c) <==> names_in(done).contains(c));
                }
            }
            match store.find(symptom.name.as_str()) {
                Some(pos) => {
                    let ghost old_map = old_view[pos as int].1;
                    store.symptoms[pos].1.insert(span, symptom);
                    proof {
                        let new_map = store@[pos as int].1;
                        assert(store@ =~= old_view.update(pos as int, (name, new_map)));
                        assert(store.names() =~= old_names);
                        assert(old_names[pos as int] == name);
                        assert(new_map.to_set() =~= stored_entries(done.push(symptom), name)) by {
                            assert forall|e: (OrderedNaiveDateTimeSpan, Symptom)|
                                new_map.to_set().contains(e) == stored_entries(
                                    done.push(symptom),
                                    name,
                                ).contains(e) by {
                                assert(new_map.contains(e) == new_map.to_set().contains(e));
                                assert(old_map.contains(e) == old_map.to_set().contains(e));
                            }
                        }
                        assert forall|k: int| 0 <= k < new_map.len() implies (#[trigger] new_map[k]).1.name@
                            == name && new_map[k].1.span_spec() == Ok::<
                            OrderedNaiveDateTimeSpan,
                            SpanError,
                        >(new_map[k].0) by {
                            assert(new_map.contains(new_map[k]));
                            if new_map[k] != (span, symptom) {
                                let m = choose|m: int| 0 <= m < old_map.len() && old_map[m] == new_map[k];
                                assert(old_view[pos as int].1[m] == old_map[m]);
                            }
                        }
                        assert(new_map.contains((span, symptom)));
                        assert forall|i: int| 0 <= i < store@.len() && i != pos implies (#[trigger] store@[i])
                            == old_view[i] && old_view[i].0 != name by {
                            assert(old_names[i] == old_view[i].0);
                        }
                        assert forall|c: Seq<char>|
                            #![trigger store.names().contains(c)]
                            store.names().contains(c) <==> names_in(done.push(symptom)).contains(c) by {
                            assert(old_names.contains(name));
                        }
                    }
                },
                None => {
                    let mut map = BTreeDateMap::new();
                    let key = symptom.name.clone();
                    map.insert(span, symptom);
                    store.symptoms.push((key, map));
                    proof {
                        let new_map = store@[old_view.len() as int].1;
                        assert(store@ =~= old_view.push((name, new_map)));
                        assert(store.names() =~= old_names.push(name));
                        assert(!old_names.contains(name));
                        assert(!names_in(done).contains(name));
                        assert(stored_entries(done, name) =~= Set::empty()) by {
                            assert forall|e: (OrderedNaiveDateTimeSpan, Symptom)|
                                !stored_entries(done, name).contains(e) by {
                                if stored_entries(done, name).contains(e) {
                                    let j = choose|j: int|
                                        0 <= j < done.len() && done[j].name@ == name && survives(done, j)
                                            && e == (done[j].span_spec()->Ok_0, done[j]);
                                    assert(names_in(done).contains(name));
                                }
                            }
                        }
                        assert(new_map.to_set() =~= stored_entries(done.push(symptom), name)) by {
                            assert forall|e: (OrderedNaiveDateTimeSpan, Symptom)|
                                new_map.to_set().contains(e) == stored_entries(
                                    done.push(symptom),
                                    name,
                                ).contains(e) by {
                                assert(new_map.contains(e) == new_map.to_set().contains(e));
                            }
                        }
                        assert forall|k: int| 0 <= k < new_map.len() implies (#[trigger] new_map[k]).1.name@
                            == name && new_map[k].1.span_spec() == Ok::<
                            OrderedNaiveDateTimeSpan,
                            SpanError,
                        >(new_map[k].0) by {
                            assert(new_map.contains(new_map[k]));
                        }
                        assert(new_map.contains((span, symptom)));
                        assert forall|i: int| 0 <= i < old_view.len() implies (#[trigger] store@[i])
                            == old_view[i] && old_view[i].0 != name by {
                            assert(old_names[i] == old_view[i].0);
                        }
                        assert forall|i: int, j: int|
                            0 <= i < j < store@.len() implies (#[trigger] store@[i]).0 != (
                            #[trigger] store@[j]).0 by {
                            if j == old_view.len() {
                                assert(old_names[i] == old_view[i].0);
                            }
                        }
                        assert forall|c: Seq<char>|
                            #![trigger store.names().contains(c)]
                            store.names().contains(c) <==> names_in(done.push(symptom)).contains(c) by {
                            let pushed = old_names.push(name);
                            if pushed.contains(c) {
                                let m = choose|m: int| 0 <= m < pushed.len() && pushed[m] == c;
                                if m < old_names.len() {
                                    assert(old_names[m] == c);
                                }
                            }
                            if old_names.contains(c) {
                                let m = choose|m: int| 0 <= m < old_names.len() && old_names[m] == c;
                                assert(pushed[m] == c);
                            }
                            assert(pushed[old_names.len() as int] == name);
                        }
                    }
                },
            }
        }
        proof {
            assert(records.subrange(0, records.len() as int) =~= records);
        }
        Ok(store)
    }

    /// The points of symptom `name` whose spans overlap the window from the
    /// start of `lower` to the end of `upper`, or `None` for an unknown name.
    pub open spec fn chart(
        &self,
        name: Seq<char>,
        lower: OrderedNaiveDateTimeSpan,
        upper: OrderedNaiveDateTimeSpan,
    ) -> Option<Seq<DateTimeValuePoint>> {
        match self.category(name) {
            Some(entries) => Some(
                points_of(
                    entries.filter(
                        |e: (OrderedNaiveDateTimeSpan, Symptom)| in_window(e.0, lower, upper),
                    ),
                ),
            ),
            None => None,
        }
    }

    proof fn lemma_category_at(&self, i: int)
        requires
            self.wf(),
            0 <= i < self@.len(),
        ensures
            self.category(self@[i].0) == Some(self@[i].1),
    {
        let name = self@[i].0;
        let j = choose|j: int| 0 <= j < self@.len() && self@[j].0 == name;
        if j < i {
            assert(self@[j].0 != self@[i].0);
        } else if j > i {
            assert(self@[i].0 != self@[j].0);
        }
    }

    /// The symptom names, each once, in order of first appearance.
    pub fn get_symptom_names(&self) -> (r: Vec<&String>)
        ensures
            r@.len() == self.names().len(),
            forall|i: int| 0 <= i < r@.len() ==> (#[trigger] r@[i])@ == self.names()[i],
    {
        let mut out: Vec<&String> = Vec::new();
        let n = self.symptoms.len();
        let mut i: usize = 0;
        while i < n
            invariant
                i <= n,
                n == self@.len(),
                out@.len() == i,
                forall|k: int| 0 <= k < i ==> (#[trigger] out@[k])@ == self.names()[k],
            decreases n - i,
        {
            out.push(&self.symptoms[i].0);
            i += 1;
        }
        out
    }

    /// The starts of the earliest and of the latest span of symptom `name`,
    /// or `None` for an unknown name.
    pub fn get_symptom_date_range(&self, symptom_name: &str) -> (r: Option<
        (crate::time::Timestamp, crate::time::Timestamp),
    >)
        requires
            self.wf(),
        ensures
            r == (match self.category(symptom_name@) {
                Some(entries) => Some((entries[0].0.start, entries.last().0.start)),
                None => None,
            }),
            r matches Some(range) ==> range.0.seconds <= range.1.seconds,
    {
        match self.find(symptom_name) {
            None => None,
            Some(pos) => {
                let map = &self.symptoms[pos].1;
                proof {
                    self.lemma_category_at(pos as int);
                    assert(map@ == self@[pos as int].1);
                }
                let first = map.min().unwrap().0.start;
                let last = map.max().unwrap().0.start;
                proof {
                    let entries = map@;
                    if entries.len() > 1 {
                        assert(entries[0].0.precedes(entries[entries.len() - 1].0));
                    }
                }
                Some((first, last))
            },
        }
    }

    /// The records of symptom `name` in ascending order of their spans, or
    /// `None` for an unknown name.
    pub fn get_all_sorted_symptoms(&self, symptom_name: &str) -> (r: Option<Vec<&Symptom>>)
        requires
            self.wf(),
        ensures
            match self.category(symptom_name@) {
                Some(entries) => r matches Some(records) && records@.len() == entries.len() && (
                forall|i: int| 0 <= i < records@.len() ==> *(#[trigger] records@[i]) == entries[i].1),
                None => r is None,
            },
            r matches Some(records) ==> forall|i: int, j: int|
                0 <= i < j < records@.len() ==> (#[trigger] records@[i]).span_spec()->Ok_0.start.seconds
                    < (#[trigger] records@[j]).span_spec()->Ok_0.start.seconds,
    {
        match self.find(symptom_name) {
            None => None,
            Some(pos) => {
                let map = &self.symptoms[pos].1;
                proof {
                    self.lemma_category_at(pos as int);
                    assert(map@ == self@[pos as int].1);
                }
                let records = map.values();
                proof {
                    let entries = map@;
                    assert forall|i: int, j: int| 0 <= i < j < records@.len() implies (
                    #[trigger] records@[i]).span_spec()->Ok_0.start.seconds < (
                    #[trigger] records@[j]).span_spec()->Ok_0.start.seconds by {
                        assert(self@[pos as int].1[i] == entries[i]);
                        assert(self@[pos as int].1[j] == entries[j]);
                        assert(entries[i].0.precedes(entries[j].0));
                    }
                }
                Some(records)
            },
        }
    }

    /// The chart of symptom `name` over the window from the start of `lower`
    /// to the end of `upper`: one point per record whose span overlaps the
    /// window, in ascending order. `None` for an unknown name.
    pub fn get_basic_symptoms_scatterplot(
        &self,
        symptom_name: &str,
        lower: &OrderedNaiveDateTimeSpan,
        upper: &OrderedNaiveDateTimeSpan,
    ) -> (r: Option<ScatterPlot>)
        requires
            self.wf(),
        ensures
            match self.chart(symptom_name@, *lower, *upper) {
                Some(points) => r matches Some(plot) && plot.points@ == points,
                None => r is None,
            },
    {
        match self.find(symptom_name) {
            None => None,
            Some(pos) => {
                let map = &self.symptoms[pos].1;
                proof {
                    self.lemma_category_at(pos as int);
                    assert(map@ == self@[pos as int].1);
                }
                let found = map.range(lower, upper);
                let ghost deref = |p: (&OrderedNaiveDateTimeSpan, &Symptom)| (*p.0, *p.1);
                let ghost kept = found@.map_values(deref);
                let mut points: Vec<DateTimeValuePoint> = Vec::new();
                let n = found.len();
                let mut i: usize = 0;
                while i < n
                    invariant
                        i <= n,
                        n == found@.len(),
                        kept == found@.map_values(deref),
                        deref == (|p: (&OrderedNaiveDateTimeSpan, &Symptom)| (*p.0, *p.1)),
                        points@ == points_of(kept.subrange(0, i as int)),
                    decreases n - i,
                {
                    let (span, record) = found[i];
                    points.push(DateTimeValuePoint { x: span.start, y: record.severity });
                    assert(points_of(kept.subrange(0, i + 1)) =~= points_of(kept.subrange(0, i as int)).push(
                        DateTimeValuePoint { x: span.start, y: record.severity },
                    ));
                    i += 1;
                }
                assert(kept.subrange(0, n as int) =~= kept);
                Some(ScatterPlot { points })
            },
        }
    }

    /// Where symptom `name` is kept.
    fn find(&self, name: &str) -> (r: Option<usize>)
        ensures
            match r {
                Some(i) => i < self@.len() && self@[i as int].0 == name@,
                None => forall|i: int| 0 <= i < self@.len() ==> self@[i].0 != name@,
            },
    {
        let n = self.symptoms.len();
        let mut i: usize = 0;
        while i < n
            invariant
                i <= n,
                n == self@.len(),
                forall|k: int| 0 <= k < i ==> self@[k].0 != name@,
            decreases n - i,
        {
            if same_text(self.symptoms[i].0.as_str(), name) {
                return Some(i);
            }
            i += 1;
        }
        None
    }
}

} // verus!
