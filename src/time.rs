//! Calendar days, instants and spans of time.
use vstd::prelude::*;

verus! {

/// Seconds in one calendar day.
pub const SECONDS_PER_DAY: i64 = 86400;

/// A calendar day, numbered as chrono numbers days from the common era:
/// 0001-01-01 is day 1.
#[derive(Clone, Copy, Debug, PartialEq, Eq, Structural)]
pub struct Date {
    pub days: i32,
}

/// An instant with a resolution of one second, counted in seconds from the
/// midnight that starts day 0.
#[derive(Clone, Copy, Debug, PartialEq, Eq, Structural)]
pub struct Timestamp {
    pub seconds: i64,
}

impl Date {
    /// The first instant of this day.
    pub open spec fn midnight(self) -> int {
        self.days * SECONDS_PER_DAY
    }

    pub fn from_days(days: i32) -> (r: Date)
        ensures
            r.days == days,
    {
        Date { days }
    }

    /// The instant `second` seconds after the midnight that starts this day;
    /// `SECONDS_PER_DAY` gives the midnight that ends it.
    pub fn and_seconds(self, second: u32) -> (r: Timestamp)
        requires
            second <= SECONDS_PER_DAY,
        ensures
            r.seconds == self.midnight() + second,
    {
        let days = self.days as i64;
        assert(i32::MIN * SECONDS_PER_DAY <= days * SECONDS_PER_DAY <= i32::MAX * SECONDS_PER_DAY)
            by (nonlinear_arith)
            requires
                i32::MIN <= days <= i32::MAX,
        ;
        Timestamp { seconds: days * SECONDS_PER_DAY + second as i64 }
    }

    /// The instant at the given wall-clock time of this day.
    pub fn and_hms(self, hour: u32, minute: u32, second: u32) -> (r: Timestamp)
        requires
            hour < 24,
            minute < 60,
            second < 60,
        ensures
            r.seconds == self.midnight() + hour * 3600 + minute * 60 + second,
    {
        self.and_seconds(hour * 3600 + minute * 60 + second)
    }
}

impl Timestamp {
    /// The day that holds this instant.
    pub open spec fn day_of(self) -> int {
        self.seconds / SECONDS_PER_DAY
    }

    /// Whether this instant lies on a day that `Date` can number.
    pub open spec fn on_representable_day(self) -> bool {
        i32::MIN <= self.day_of() <= i32::MAX
    }

    pub fn date(&self) -> (r: Date)
        requires
            self.on_representable_day(),
        ensures
            r.days == self.day_of(),
            r.midnight() <= self.seconds < r.midnight() + SECONDS_PER_DAY,
    {
        let days = self.seconds.checked_div_euclid(SECONDS_PER_DAY).unwrap();
        Date { days: days as i32 }
    }
}

/// A non-empty span of time, read as the half-open interval `[start, end)`.
///
/// Spans are compared by overlap: one that ends no later than another starts
/// comes before it, and two that share an instant compare `Equal`. Overlap is
/// not transitive, so `Equal` here is no equivalence.
#[derive(Clone, Copy, Debug, PartialEq, Eq, Structural)]
pub struct OrderedNaiveDateTimeSpan {
    pub start: Timestamp,
    pub end: Timestamp,
}

impl OrderedNaiveDateTimeSpan {
    /// A span is well formed when it starts before it ends. An empty span
    /// (start equal to end) holds no instant; `new` refuses it, as timespan's
    /// `Span::new` does, and a map keeps only well-formed keys. The overlap
    /// order still compares an empty span `Equal` with itself.
    pub open spec fn wf(self) -> bool {
        self.start.seconds < self.end.seconds
    }

    /// This span ends no later than `other` starts.
    pub open spec fn precedes(self, other: Self) -> bool {
        self.end.seconds <= other.start.seconds
    }

    /// The two spans share an instant.
    pub open spec fn overlaps(self, other: Self) -> bool {
        self.start.seconds < other.end.seconds && other.start.seconds < self.end.seconds
    }

    /// `Less` when this span ends no later than `other` starts and starts
    /// before it, `Greater` in the mirrored case, `Equal` otherwise. For
    /// well-formed spans the second condition follows from the first.
    pub open spec fn overlap_order(self, other: Self) -> core::cmp::Ordering {
        if self.precedes(other) && self.start.seconds < other.start.seconds {
            core::cmp::Ordering::Less
        } else if other.precedes(self) && other.start.seconds < self.start.seconds {
            core::cmp::Ordering::Greater
        } else {
            core::cmp::Ordering::Equal
        }
    }

    /// The span from `start` to `end`, or `None` unless `start` comes first.
    pub fn new(start: Timestamp, end: Timestamp) -> (r: Option<OrderedNaiveDateTimeSpan>)
        ensures
            r == (if start.seconds < end.seconds {
                Some(OrderedNaiveDateTimeSpan { start, end })
            } else {
                None
            }),
    {
        if start.seconds < end.seconds {
            Some(OrderedNaiveDateTimeSpan { start, end })
        } else {
            None
        }
    }

    pub fn overlaps_with(&self, other: &OrderedNaiveDateTimeSpan) -> (r: bool)
        ensures
            r == self.overlaps(*other),
    {
        self.start.seconds < other.end.seconds && other.start.seconds < self.end.seconds
    }

    /// Orders two spans by overlap: `Less` when this one ends no later than
    /// `other` starts (and starts before it), `Greater` in the mirrored case,
    /// `Equal` when they overlap. Every span compares `Equal` with itself,
    /// an empty one included.
    pub fn overlap_cmp(&self, other: &OrderedNaiveDateTimeSpan) -> (r: core::cmp::Ordering)
        ensures
            r == self.overlap_order(*other),
    {
        if self.end.seconds <= other.start.seconds && self.start.seconds < other.start.seconds {
            core::cmp::Ordering::Less
        } else if other.end.seconds <= self.start.seconds && other.start.seconds
            < self.start.seconds {
            core::cmp::Ordering::Greater
        } else {
            core::cmp::Ordering::Equal
        }
    }
}

/// Two well-formed spans compare `Equal` exactly when they overlap, and the
/// order is antisymmetric: swapping the spans swaps `Less` and `Greater`.
pub proof fn lemma_overlap_order(a: OrderedNaiveDateTimeSpan, b: OrderedNaiveDateTimeSpan)
    requires
        a.wf(),
        b.wf(),
    ensures
        (a.overlap_order(b) == core::cmp::Ordering::Equal) == a.overlaps(b),
        (a.overlap_order(b) == core::cmp::Ordering::Less) == (b.overlap_order(a)
            == core::cmp::Ordering::Greater),
        !(a.precedes(b) && b.precedes(a)),
        a.precedes(b) ==> a.overlap_order(b) == core::cmp::Ordering::Less,
{
}

/// For any spans that start no later than they end, empty ones included,
/// a span compares `Equal` with itself and swapping two spans swaps `Less`
/// and `Greater` and keeps `Equal`.
pub proof fn lemma_overlap_order_reflexive_antisymmetric(
    a: OrderedNaiveDateTimeSpan,
    b: OrderedNaiveDateTimeSpan,
)
    requires
        a.start.seconds <= a.end.seconds,
        b.start.seconds <= b.end.seconds,
    ensures
        a.overlap_order(a) == core::cmp::Ordering::Equal,
        (a.overlap_order(b) == core::cmp::Ordering::Less) == (b.overlap_order(a)
            == core::cmp::Ordering::Greater),
        (a.overlap_order(b) == core::cmp::Ordering::Equal) == (b.overlap_order(a)
            == core::cmp::Ordering::Equal),
{
}

} // verus!
