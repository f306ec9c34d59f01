//! The calendar model: months, years, points in time, month counts,
//! flow frequencies and half-open time ranges.

use vstd::arithmetic::div_mod::{lemma_fundamental_div_mod, lemma_mod_multiples_basic};
use vstd::prelude::*;

verus! {

/// A calendar month. The twelve values cycle: `next` of `December` is
/// `January` (the year carry is handled by [`Time`]).
#[derive(Debug, Clone, Copy, PartialEq, Eq, PartialOrd, Ord, Hash, Structural)]
pub enum Month {
    January,
    February,
    March,
    April,
    May,
    June,
    July,
    August,
    September,
    October,
    November,
    December,
}

impl Month {
    /// The zero-based position of the month within its year.
    pub open spec fn idx(self) -> int {
        match self {
            Month::January => 0,
            Month::February => 1,
            Month::March => 2,
            Month::April => 3,
            Month::May => 4,
            Month::June => 5,
            Month::July => 6,
            Month::August => 7,
            Month::September => 8,
            Month::October => 9,
            Month::November => 10,
            Month::December => 11,
        }
    }

    /// The month at a given zero-based position within a year.
    pub open spec fn from_idx(i: int) -> Month {
        if i == 0 {
            Month::January
        } else if i == 1 {
            Month::February
        } else if i == 2 {
            Month::March
        } else if i == 3 {
            Month::April
        } else if i == 4 {
            Month::May
        } else if i == 5 {
            Month::June
        } else if i == 6 {
            Month::July
        } else if i == 7 {
            Month::August
        } else if i == 8 {
            Month::September
        } else if i == 9 {
            Month::October
        } else if i == 10 {
            Month::November
        } else {
            Month::December
        }
    }

    /// The zero-based position of the month within its year.
    pub fn num(&self) -> (n: u32)
        ensures
            n == self.idx(),
    {
        match self {
            Month::January => 0,
            Month::February => 1,
            Month::March => 2,
            Month::April => 3,
            Month::May => 4,
            Month::June => 5,
            Month::July => 6,
            Month::August => 7,
            Month::September => 8,
            Month::October => 9,
            Month::November => 10,
            Month::December => 11,
        }
    }
}

/// A point on a discrete timeline: the timeline's values are totally
/// ordered by an integer key, and each value that lies strictly below
/// another has a successor one key further on.
pub trait TimeNext: Sized + Copy {
    /// The position of this value on its timeline.
    spec fn key(self) -> int;

    /// Whether `next` may be called without overflowing.
    spec fn can_next(self) -> bool;

    /// Whether `next` steps one key forward rather than wrapping around.
    spec fn next_is_succ(self) -> bool;

    /// The exact successor value, wrap included.
    spec fn next_spec(self) -> Self;

    /// Every value strictly below another value can step forward.
    proof fn lemma_lt_can_next(self, other: Self)
        requires
            self.key() < other.key(),
        ensures
            self.can_next(),
            self.next_is_succ(),
    ;

    /// The key determines the value.
    proof fn lemma_key_injective(self, other: Self)
        requires
            self.key() == other.key(),
        ensures
            self == other,
    ;

    /// The successor of this value on its timeline.
    fn next(&self) -> (r: Self)
        requires
            self.can_next(),
        ensures
            r == self.next_spec(),
            self.next_is_succ() ==> r.key() == self.key() + 1,
    ;

    /// Whether this value lies strictly before `other` on the timeline.
    fn before(&self, other: &Self) -> (r: bool)
        ensures
            r == (self.key() < other.key()),
    ;
}

impl TimeNext for Month {
    open spec fn key(self) -> int {
        self.idx()
    }

    open spec fn can_next(self) -> bool {
        true
    }

    open spec fn next_is_succ(self) -> bool {
        self.idx() < 11
    }

    open spec fn next_spec(self) -> Month {
        if self.idx() == 11 {
            Month::January
        } else {
            Month::from_idx(self.idx() + 1)
        }
    }

    proof fn lemma_lt_can_next(self, other: Self) {
    }

    proof fn lemma_key_injective(self, other: Self) {
    }

    fn next(&self) -> (r: Self) {
        match self {
            Month::January => Month::February,
            Month::February => Month::March,
            Month::March => Month::April,
            Month::April => Month::May,
            Month::May => Month::June,
            Month::June => Month::July,
            Month::July => Month::August,
            Month::August => Month::September,
            Month::September => Month::October,
            Month::October => Month::November,
            Month::November => Month::December,
            Month::December => Month::January,
        }
    }

    fn before(&self, other: &Self) -> (r: bool) {
        self.num() < other.num()
    }
}

/// A calendar year.
#[derive(Debug, Clone, Copy, PartialEq, Eq, PartialOrd, Ord, Hash, Structural)]
pub struct Year(pub u32);

impl TimeNext for Year {
    open spec fn key(self) -> int {
        self.0 as int
    }

    open spec fn can_next(self) -> bool {
        self.0 < u32::MAX
    }

    open spec fn next_is_succ(self) -> bool {
        self.0 < u32::MAX
    }

    open spec fn next_spec(self) -> Year {
        Year((self.0 + 1) as u32)
    }

    proof fn lemma_lt_can_next(self, other: Self) {
    }

    proof fn lemma_key_injective(self, other: Self) {
    }

    fn next(&self) -> (r: Self) {
        Year(self.0 + 1)
    }

    fn before(&self, other: &Self) -> (r: bool) {
        self.0 < other.0
    }
}

/// A specific month of a specific year.
#[derive(Debug, Clone, Copy, PartialEq, Eq, PartialOrd, Ord, Hash, Structural)]
pub struct Time {
    pub year: Year,
    pub month: Month,
}

/// The position of a time on the month timeline: months since the start
/// of year zero.
pub open spec fn time_key(t: Time) -> int {
    t.year.0 * 12 + t.month.idx()
}

impl TimeNext for Time {
    open spec fn key(self) -> int {
        time_key(self)
    }

    open spec fn can_next(self) -> bool {
        !(self.year.0 == u32::MAX && self.month == Month::December)
    }

    open spec fn next_is_succ(self) -> bool {
        self.can_next()
    }

    open spec fn next_spec(self) -> Time {
        if self.month == Month::December {
            Time { year: Year((self.year.0 + 1) as u32), month: Month::January }
        } else {
            Time { year: self.year, month: self.month.next_spec() }
        }
    }

    proof fn lemma_lt_can_next(self, other: Self) {
    }

    proof fn lemma_key_injective(self, other: Self) {
    }

    fn next(&self) -> (r: Self) {
        match self.month {
            Month::December => Time { year: Year(self.year.0 + 1), month: Month::January },
            m => Time { year: self.year, month: m.next() },
        }
    }

    fn before(&self, other: &Self) -> (r: bool) {
        let self_key: u64 = (self.year.0 as u64) * 12 + (self.month.num() as u64);
        let other_key: u64 = (other.year.0 as u64) * 12 + (other.month.num() as u64);
        self_key < other_key
    }
}

impl Time {
    /// Whether this time lies strictly before another.
    pub fn precedes(&self, other: &Time) -> (r: bool)
        ensures
            r == (time_key(*self) < time_key(*other)),
    {
        self.before(other)
    }

    /// The signed number of months from `rhs` up to `self` (negative when
    /// `rhs` is the later time).
    pub fn sub(&self, rhs: &Time) -> (r: Months)
        ensures
            r.0 == time_key(*self) - time_key(*rhs),
    {
        let self_key: i64 = (self.year.0 as i64) * 12 + (self.month.num() as i64);
        let rhs_key: i64 = (rhs.year.0 as i64) * 12 + (rhs.month.num() as i64);
        Months(self_key - rhs_key)
    }
}

impl Year {
    /// The twelve months of this year, January through December, in order.
    pub fn months(&self) -> (r: Vec<Time>)
        requires
            self.0 < u32::MAX,
        ensures
            r@.len() == 12,
            forall|i: int|
                0 <= i < 12 ==> #[trigger] r@[i] == (Time {
                    year: *self,
                    month: Month::from_idx(i),
                }),
    {
        let range = TimeRange {
            start: Time { year: *self, month: Month::January },
            end: Time { year: Year(self.0 + 1), month: Month::January },
        };
        let out = range.values();
        proof {
            assert forall|i: int| 0 <= i < 12 implies #[trigger] out@[i] == (Time {
                year: *self,
                month: Month::from_idx(i),
            }) by {
                let expect = Time { year: *self, month: Month::from_idx(i) };
                assert(expect.key() == self.0 * 12 + i);
                out@[i].lemma_key_injective(expect);
            }
        }
        out
    }
}

/// A signed count of months, the difference of two [`Time`] values.
#[derive(Debug, Clone, Copy, PartialEq, Eq, PartialOrd, Ord, Hash, Structural)]
pub struct Months(pub i64);

/// How often a flow recurs within its window.
#[derive(Debug, Clone, Copy, PartialEq, Eq, PartialOrd, Ord, Hash, Structural)]
pub enum Frequency {
    Monthly,
    Quarterly,
    Yearly,
}

/// The length of one period of a frequency, in months.
pub open spec fn frequency_months(f: Frequency) -> int {
    match f {
        Frequency::Monthly => 1,
        Frequency::Quarterly => 3,
        Frequency::Yearly => 12,
    }
}

/// Whether a month count lands exactly on a period boundary of `f`.
pub open spec fn even_freq_spec(n: int, f: Frequency) -> bool {
    n % frequency_months(f) == 0
}

/// For a positive divisor, the truncating remainder is zero exactly when
/// the Euclidean remainder is.
proof fn lemma_trunc_rem_zero(a: int, b: int)
    requires
        b > 0,
    ensures
        (crate::tmod(a, b) == 0) == (a % b == 0),
{
    if a == 0 {
        lemma_mod_multiples_basic(0, b);
    } else if a < 0 {
        let q = (-a) / b;
        let r = (-a) % b;
        lemma_fundamental_div_mod(-a, b);
        if r == 0 {
            assert(a == (-q) * b) by (nonlinear_arith)
                requires
                    -a == b * q + r,
                    r == 0,
            ;
            lemma_mod_multiples_basic(-q, b);
        }
        if a % b == 0 {
            let q2 = a / b;
            lemma_fundamental_div_mod(a, b);
            assert(-a == (-q2) * b) by (nonlinear_arith)
                requires
                    a == b * q2 + a % b,
                    a % b == 0,
            ;
            lemma_mod_multiples_basic(-q2, b);
        }
    }
}

impl Months {
    /// Whether this many months from a flow's start lands on an occurrence
    /// of the given frequency: always for monthly flows, every third month
    /// for quarterly ones and every twelfth for yearly ones.
    pub fn even_freq(&self, freq: &Frequency) -> (r: bool)
        ensures
            r == even_freq_spec(self.0 as int, *freq),
    {
        let divisor: i64 = match freq {
            Frequency::Monthly => 1,
            Frequency::Quarterly => 3,
            Frequency::Yearly => 12,
        };
        let rem = self.0.checked_rem(divisor);
        proof {
            lemma_trunc_rem_zero(self.0 as int, divisor as int);
        }
        match rem {
            Some(r) => r == 0,
            None => false,
        }
    }
}

/// A half-open interval `[start, end)` on a timeline; empty whenever
/// `start >= end`.
#[derive(Debug, Clone, Copy, PartialEq, Eq)]
pub struct TimeRange<T: TimeNext> {
    pub start: T,
    pub end: T,
}

impl<T: TimeNext> TimeRange<T> {
    /// How many values the range holds.
    pub open spec fn spec_len(self) -> int {
        if self.start.key() < self.end.key() {
            self.end.key() - self.start.key()
        } else {
            0
        }
    }

    /// An iterator over the range's values.
    pub fn iter(&self) -> (r: TimeRangeIter<T>)
        ensures
            r.current == self.start,
            r.end == self.end,
    {
        TimeRangeIter { end: self.end, current: self.start }
    }

    /// All values of the range in ascending order: `start`, its successor,
    /// and so on up to but excluding `end`.
    pub fn values(&self) -> (r: Vec<T>)
        ensures
            r@.len() == self.spec_len(),
            forall|i: int| 0 <= i < r@.len() ==> #[trigger] r@[i].key() == self.start.key() + i,
    {
        let mut out: Vec<T> = Vec::new();
        let mut current: T = self.start;
        while current.before(&self.end)
            invariant
                current.key() == self.start.key() + out@.len(),
                self.start.key() < self.end.key() ==> current.key() <= self.end.key(),
                self.start.key() >= self.end.key() ==> out@.len() == 0,
                forall|i: int|
                    0 <= i < out@.len() ==> #[trigger] out@[i].key() == self.start.key() + i,
            decreases self.end.key() - current.key(),
        {
            proof {
                current.lemma_lt_can_next(self.end);
            }
            out.push(current);
            current = current.next();
        }
        out
    }
}

/// A cursor over the values of a [`TimeRange`], yielding `start`,
/// `start.next()`, and so on up to but excluding `end`.
pub struct TimeRangeIter<T: TimeNext> {
    pub end: T,
    pub current: T,
}

impl<T: TimeNext> TimeRangeIter<T> {
    /// The next value of the range, or `None` once the cursor has reached
    /// the range's end.
    pub fn next(&mut self) -> (r: Option<T>)
        ensures
            old(self).current.key() < old(self).end.key() ==> {
                &&& r == Some(old(self).current)
                &&& final(self).current.key() == old(self).current.key() + 1
            },
            old(self).current.key() >= old(self).end.key() ==> {
                &&& r is None
                &&& *final(self) == *old(self)
            },
            final(self).end == old(self).end,
    {
        if self.current.before(&self.end) {
            let out = self.current;
            proof {
                self.current.lemma_lt_can_next(self.end);
            }
            self.current = self.current.next();
            Some(out)
        } else {
            None
        }
    }
}

} // verus!
