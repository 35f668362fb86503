//! An ordered map keyed by spans of time, whose keys never overlap.
use crate::time::OrderedNaiveDateTimeSpan;
use vstd::prelude::*;

verus! {

/// Every key is well formed and ends no later than the next key starts, so
/// the keys are pairwise disjoint and in ascending order of start.
pub open spec fn sorted_disjoint<T>(entries: Seq<(OrderedNaiveDateTimeSpan, T)>) -> bool {
    &&& forall|i: int| 0 <= i < entries.len() ==> (#[trigger] entries[i]).0.wf()
    &&& forall|i: int, j: int|
        0 <= i < j < entries.len() ==> (#[trigger] entries[i]).0.precedes(#[trigger] entries[j].0)
}

/// The span overlaps the window that runs from the start of `lower` to the
/// end of `upper`.
pub open spec fn in_window(
    span: OrderedNaiveDateTimeSpan,
    lower: OrderedNaiveDateTimeSpan,
    upper: OrderedNaiveDateTimeSpan,
) -> bool {
    span.start.seconds < upper.end.seconds && lower.start.seconds < span.end.seconds
}

/// `after` is what storing `value` under `span` leaves of `before`: the new
/// entry and every old entry whose span does not overlap `span`, in order.
pub open spec fn inserted<T>(
    before: Seq<(OrderedNaiveDateTimeSpan, T)>,
    span: OrderedNaiveDateTimeSpan,
    value: T,
    after: Seq<(OrderedNaiveDateTimeSpan, T)>,
) -> bool {
    &&& sorted_disjoint(after)
    &&& forall|e: (OrderedNaiveDateTimeSpan, T)|
        #![trigger after.contains(e)]
        after.contains(e) <==> (e == (span, value) || (before.contains(e) && !e.0.overlaps(span)))
}

/// Storing two values under the same span keeps one entry: the last.
pub proof fn lemma_same_span_keeps_last<T>(
    span: OrderedNaiveDateTimeSpan,
    first: T,
    second: T,
    once: Seq<(OrderedNaiveDateTimeSpan, T)>,
    twice: Seq<(OrderedNaiveDateTimeSpan, T)>,
)
    requires
        span.wf(),
        inserted(Seq::empty(), span, first, once),
        inserted(once, span, second, twice),
    ensures
        twice == seq![(span, second)],
{
    assert forall|e: (OrderedNaiveDateTimeSpan, T)| twice.contains(e) implies e == (span, second) by {
        if once.contains(e) && e != (span, second) {
            assert(!Seq::<(OrderedNaiveDateTimeSpan, T)>::empty().contains(e));
        }
    }
    assert(twice.contains((span, second)));
    if twice.len() > 1 {
        assert(twice.contains(twice[0]) && twice.contains(twice[1]));
        assert(twice[0].0.precedes(twice[1].0));
    }
    assert(twice =~= seq![(span, second)]);
}

/// Storing values under two disjoint spans keeps both entries, the earlier
/// span first, whatever the order of storing.
pub proof fn lemma_disjoint_spans_keep_both<T>(
    a: OrderedNaiveDateTimeSpan,
    b: OrderedNaiveDateTimeSpan,
    first: T,
    second: T,
    once: Seq<(OrderedNaiveDateTimeSpan, T)>,
    twice: Seq<(OrderedNaiveDateTimeSpan, T)>,
)
    requires
        a.wf(),
        b.wf(),
        a.precedes(b) || b.precedes(a),
        inserted(Seq::empty(), a, first, once),
        inserted(once, b, second, twice),
    ensures
        twice == (if a.precedes(b) {
            seq![(a, first), (b, second)]
        } else {
            seq![(b, second), (a, first)]
        }),
{
    let x = (a, first);
    let y = (b, second);
    assert(!Seq::<(OrderedNaiveDateTimeSpan, T)>::empty().contains(x));
    assert(once.contains(x));
    assert(twice.contains(x) && twice.contains(y));
    assert forall|e: (OrderedNaiveDateTimeSpan, T)| twice.contains(e) implies e == x || e == y by {
        if e != y {
            assert(!Seq::<(OrderedNaiveDateTimeSpan, T)>::empty().contains(e));
        }
    }
    let i = choose|i: int| 0 <= i < twice.len() && twice[i] == x;
    let j = choose|j: int| 0 <= j < twice.len() && twice[j] == y;
    assert(i != j);
    if twice.len() > 2 {
        assert(twice.contains(twice[0]) && twice.contains(twice[1]) && twice.contains(twice[2]));
        assert(twice[0].0.precedes(twice[1].0));
        assert(twice[0].0.precedes(twice[2].0));
        assert(twice[1].0.precedes(twice[2].0));
    }
    if a.precedes(b) {
        if i > j {
            assert(twice[j].0.precedes(twice[i].0));
        }
        assert(twice =~= seq![x, y]);
    } else {
        if j > i {
            assert(twice[i].0.precedes(twice[j].0));
        }
        assert(twice =~= seq![y, x]);
    }
}

/// An ordered map from spans of time to values. Inserting a span removes
/// every entry whose span overlaps it, so the last write wins and the stored
/// spans stay pairwise disjoint, in ascending order.
pub struct BTreeDateMap<T> {
    entries: Vec<(OrderedNaiveDateTimeSpan, T)>,
}

impl<T> View for BTreeDateMap<T> {
    type V = Seq<(OrderedNaiveDateTimeSpan, T)>;

    closed spec fn view(&self) -> Seq<(OrderedNaiveDateTimeSpan, T)> {
        self.entries@
    }
}

impl<T> BTreeDateMap<T> {
    pub open spec fn wf(&self) -> bool {
        sorted_disjoint(self@)
    }

    pub fn new() -> (r: BTreeDateMap<T>)
        ensures
            r@ == Seq::<(OrderedNaiveDateTimeSpan, T)>::empty(),
            r.wf(),
    {
        BTreeDateMap { entries: Vec::new() }
    }

    pub fn len(&self) -> (r: usize)
        ensures
            r == self@.len(),
    {
        self.entries.len()
    }

    /// The entry with the earliest span, if any.
    pub fn min(&self) -> (r: Option<(&OrderedNaiveDateTimeSpan, &T)>)
        ensures
            r is None <==> self@.len() == 0,
            r matches Some(p) ==> *p.0 == self@[0].0 && *p.1 == self@[0].1,
    {
        if self.entries.len() == 0 {
            None
        } else {
            let e = &self.entries[0];
            Some((&e.0, &e.1))
        }
    }

    /// The entry with the latest span, if any.
    pub fn max(&self) -> (r: Option<(&OrderedNaiveDateTimeSpan, &T)>)
        ensures
            r is None <==> self@.len() == 0,
            r matches Some(p) ==> *p.0 == self@.last().0 && *p.1 == self@.last().1,
    {
        let n = self.entries.len();
        if n == 0 {
            None
        } else {
            let e = &self.entries[n - 1];
            Some((&e.0, &e.1))
        }
    }

    /// The stored values, in ascending order of their spans.
    pub fn values(&self) -> (r: Vec<&T>)
        ensures
            r@.len() == self@.len(),
            forall|i: int| 0 <= i < r@.len() ==> *(#[trigger] r@[i]) == self@[i].1,
    {
        let mut out: Vec<&T> = Vec::new();
        let n = self.entries.len();
        let mut i: usize = 0;
        while i < n
            invariant
                i <= n,
                n == self@.len(),
                out@.len() == i,
                forall|k: int| 0 <= k < i ==> *(#[trigger] out@[k]) == self@[k].1,
            decreases n - i,
        {
            out.push(&self.entries[i].1);
            i += 1;
        }
        out
    }

    /// The entries whose spans overlap the window from the start of `lower`
    /// to the end of `upper`, in ascending order.
    pub fn range(&self, lower: &OrderedNaiveDateTimeSpan, upper: &OrderedNaiveDateTimeSpan) -> (r:
        Vec<(&OrderedNaiveDateTimeSpan, &T)>)
        ensures
            r@.map_values(|p: (&OrderedNaiveDateTimeSpan, &T)| (*p.0, *p.1)) == self@.filter(
                |e: (OrderedNaiveDateTimeSpan, T)| in_window(e.0, *lower, *upper),
            ),
    {
        let ghost pred = |e: (OrderedNaiveDateTimeSpan, T)| in_window(e.0, *lower, *upper);
        let ghost deref = |p: (&OrderedNaiveDateTimeSpan, &T)| (*p.0, *p.1);
        let ghost lower_span = *lower;
        let ghost upper_span = *upper;
        let mut out: Vec<(&OrderedNaiveDateTimeSpan, &T)> = Vec::new();
        let n = self.entries.len();
        let mut i: usize = 0;
        while i < n
            invariant
                i <= n,
                n == self@.len(),
                lower_span == *lower,
                upper_span == *upper,
                pred == (|e: (OrderedNaiveDateTimeSpan, T)| in_window(e.0, lower_span, upper_span)),
                deref == (|p: (&OrderedNaiveDateTimeSpan, &T)| (*p.0, *p.1)),
                out@.map_values(deref) == self@.subrange(0, i as int).filter(pred),
            decreases n - i,
        {
            let e = &self.entries[i];
            let ghost before = out@;
            proof {
                reveal(Seq::filter);
                let upto = self@.subrange(0, i + 1);
                assert(upto.drop_last() =~= self@.subrange(0, i as int));
                assert(upto.last() == self@[i as int]);
                assert(*e == self@[i as int]);
            }
            if e.0.start.seconds < upper.end.seconds && lower.start.seconds < e.0.end.seconds {
                out.push((&e.0, &e.1));
                assert(pred(self@[i as int]));
                assert(out@.map_values(deref) =~= before.map_values(deref).push(self@[i as int]));
            } else {
                assert(!pred(self@[i as int]));
            }
            assert(out@.map_values(deref) =~= self@.subrange(0, i + 1).filter(pred));
            i += 1;
        }
        assert(self@.subrange(0, n as int) =~= self@);
        out
    }

    /// Stores `value` under `span`, dropping every entry whose span overlaps
    /// `span`. The span must be well formed (start before end): an empty span
    /// overlaps nothing, so it could not replace an entry, not even one under
    /// the same empty span. Only the spans of day parts, never empty, reach a
    /// store's maps, and `OrderedNaiveDateTimeSpan::new` builds no empty span.
    pub fn insert(&mut self, span: OrderedNaiveDateTimeSpan, value: T)
        requires
            old(self).wf(),
            span.wf(),
        ensures
            final(self).wf(),
            inserted(old(self)@, span, value, final(self)@),
    {
        let ghost old_s = self@;
        let n = self.entries.len();
        let mut lo: usize = 0;
        while lo < n && self.entries[lo].0.end.seconds <= span.start.seconds
            invariant
                lo <= n,
                n == old_s.len(),
                self@ == old_s,
                forall|k: int| 0 <= k < lo ==> (#[trigger] old_s[k]).0.precedes(span),
            decreases n - lo,
        {
            lo += 1;
        }
        let mut hi: usize = lo;
        while hi < n && self.entries[hi].0.start.seconds < span.end.seconds
            invariant
                lo <= hi <= n,
                n == old_s.len(),
                self@ == old_s,
                sorted_disjoint(old_s),
                lo < n ==> span.start.seconds < old_s[lo as int].0.end.seconds,
                forall|k: int| lo <= k < hi ==> (#[trigger] old_s[k]).0.overlaps(span),
            decreases n - hi,
        {
            if hi > lo {
                assert(old_s[lo as int].0.precedes(old_s[hi as int].0));
            }
            hi += 1;
        }
        proof {
            assert forall|k: int| hi <= k < n implies span.precedes(#[trigger] old_s[k].0) by {
                if k > hi {
                    assert(old_s[hi as int].0.precedes(old_s[k].0));
                }
            }
        }
        let mut removed: usize = 0;
        while removed < hi - lo
            invariant
                lo <= hi <= n,
                n == old_s.len(),
                removed <= hi - lo,
                self.entries@ == old_s.subrange(0, lo as int) + old_s.subrange(
                    lo + removed,
                    n as int,
                ),
            decreases hi - lo - removed,
        {
            self.entries.remove(lo);
            removed += 1;
        }
        self.entries.insert(lo, (span, value));
        proof {
            let s = self@;
            let new_e = (span, value);
            assert(s =~= old_s.subrange(0, lo as int).push(new_e) + old_s.subrange(
                hi as int,
                n as int,
            ));
            assert(s.len() == lo + 1 + (n - hi));
            assert forall|m: int| 0 <= m < s.len() implies #[trigger] s[m] == (if m < lo {
                old_s[m]
            } else if m == lo {
                new_e
            } else {
                old_s[m - lo - 1 + hi]
            }) by {}
            assert forall|i: int| 0 <= i < s.len() implies (#[trigger] s[i]).0.wf() by {}
            assert forall|i: int, j: int| 0 <= i < j < s.len() implies (#[trigger] s[i]).0.precedes(
                #[trigger] s[j].0,
            ) by {
                if i < lo && j > lo {
                    assert(old_s[i].0.precedes(old_s[j - lo - 1 + hi].0));
                } else if i > lo {
                    assert(old_s[i - lo - 1 + hi].0.precedes(old_s[j - lo - 1 + hi].0));
                } else if j < lo {
                    assert(old_s[i].0.precedes(old_s[j].0));
                }
            }
            assert forall|e: (OrderedNaiveDateTimeSpan, T)|
                #![trigger s.contains(e)]
                s.contains(e) <==> (e == new_e || (old_s.contains(e) && !e.0.overlaps(span))) by {
                if s.contains(e) {
                    let m = choose|m: int| 0 <= m < s.len() && s[m] == e;
                    if m < lo {
                        assert(old_s[m] == e);
                    } else if m > lo {
                        assert(old_s[m - lo - 1 + hi] == e);
                    }
                }
                if e == new_e {
                    assert(s[lo as int] == e);
                } else if old_s.contains(e) && !e.0.overlaps(span) {
                    let k = choose|k: int| 0 <= k < old_s.len() && old_s[k] == e;
                    if k < lo {
                        assert(s[k] == e);
                    } else {
                        assert(s[k - hi + lo + 1] == e);
                    }
                }
            }
        }
    }
}

} // verus!
