//! A validated piecewise-constant function of time: an ordered, non-empty
//! list of half-open ranges paired with values, forming one contiguous
//! interval with no gaps and no overlaps. Entries may be given in any
//! order; construction sorts them by start and then checks the chain.

use crate::asset::{Money, Rate};
use crate::errors::{EvalError, TableError};
use crate::time::{Time, TimeNext, TimeRange};
use vstd::multiset::Multiset;
use vstd::prelude::*;
use vstd::seq_lib::group_to_multiset_ensures;

verus! {

/// Whether a list of entries forms a single seamless interval: non-empty,
/// every range non-empty and forward, and each entry starting exactly
/// where its predecessor ends.
pub open spec fn chain<T: TimeNext, V>(s: Seq<(TimeRange<T>, V)>) -> bool {
    &&& s.len() > 0
    &&& forall|i: int| 0 <= i < s.len() ==> (#[trigger] s[i]).0.start.key() < s[i].0.end.key()
    &&& forall|i: int| 1 <= i < s.len() ==> (#[trigger] s[i]).0.start.key() == s[i - 1].0.end.key()
}

/// Whether the entries' start keys never decrease.
pub open spec fn sorted_by_start<T: TimeNext, V>(s: Seq<(TimeRange<T>, V)>) -> bool {
    forall|i: int, j: int|
        0 <= i <= j < s.len() ==> (#[trigger] s[i]).0.start.key() <= (#[trigger] s[j]).0.start.key()
}

/// The entry placed into a start-sorted list, keeping the order: it goes
/// after every entry whose start is not later than its own.
pub open spec fn insert_by_start<T: TimeNext, V>(
    s: Seq<(TimeRange<T>, V)>,
    e: (TimeRange<T>, V),
) -> Seq<(TimeRange<T>, V)>
    decreases s.len(),
{
    if s.len() == 0 {
        Seq::empty().push(e)
    } else if e.0.start.key() < s.last().0.start.key() {
        insert_by_start(s.drop_last(), e).push(s.last())
    } else {
        s.push(e)
    }
}

/// The entries in order of their start keys (insertion sort; entries with
/// equal starts keep their relative order).
pub open spec fn sort_by_start<T: TimeNext, V>(s: Seq<(TimeRange<T>, V)>) -> Seq<
    (TimeRange<T>, V),
>
    decreases s.len(),
{
    if s.len() == 0 {
        Seq::empty()
    } else {
        insert_by_start(sort_by_start(s.drop_last()), s.last())
    }
}

/// The value of the first entry whose range contains the key, if any.
pub open spec fn lookup_spec<T: TimeNext, V>(s: Seq<(TimeRange<T>, V)>, k: int) -> Option<V>
    decreases s.len(),
{
    if s.len() == 0 {
        None
    } else if s.first().0.start.key() <= k < s.first().0.end.key() {
        Some(s.first().1)
    } else {
        lookup_spec(s.drop_first(), k)
    }
}

/// Inserting adds exactly the new entry to the multiset of entries.
proof fn lemma_insert_multiset<T: TimeNext, V>(s: Seq<(TimeRange<T>, V)>, e: (TimeRange<T>, V))
    ensures
        insert_by_start(s, e).to_multiset() == s.to_multiset().insert(e),
    decreases s.len(),
{
    broadcast use group_to_multiset_ensures;

    if s.len() == 0 {
        assert(Seq::<(TimeRange<T>, V)>::empty().push(e).to_multiset() =~= Multiset::empty().insert(
            e,
        ));
        assert(s.to_multiset() =~= Multiset::empty());
    } else if e.0.start.key() < s.last().0.start.key() {
        lemma_insert_multiset(s.drop_last(), e);
        assert(s.drop_last().push(s.last()) =~= s);
        assert(insert_by_start(s, e).to_multiset() =~= s.to_multiset().insert(e));
    } else {
        assert(s.push(e).to_multiset() =~= s.to_multiset().insert(e));
    }
}

/// Sorting does not change the multiset of entries.
pub proof fn lemma_sort_multiset<T: TimeNext, V>(s: Seq<(TimeRange<T>, V)>)
    ensures
        sort_by_start(s).to_multiset() == s.to_multiset(),
    decreases s.len(),
{
    broadcast use group_to_multiset_ensures;

    if s.len() > 0 {
        lemma_sort_multiset(s.drop_last());
        lemma_insert_multiset(sort_by_start(s.drop_last()), s.last());
        assert(s.drop_last().push(s.last()) =~= s);
        assert(sort_by_start(s).to_multiset() =~= s.to_multiset());
    }
}

/// Inserting into a start-sorted list keeps it start-sorted.
proof fn lemma_insert_sorted<T: TimeNext, V>(s: Seq<(TimeRange<T>, V)>, e: (TimeRange<T>, V))
    requires
        sorted_by_start(s),
    ensures
        sorted_by_start(insert_by_start(s, e)),
        insert_by_start(s, e).len() == s.len() + 1,
    decreases s.len(),
{
    if s.len() == 0 {
    } else if e.0.start.key() < s.last().0.start.key() {
        assert(sorted_by_start(s.drop_last())) by {
            assert(forall|i: int|
                0 <= i < s.len() - 1 ==> #[trigger] s.drop_last()[i] == s[i]);
        }
        lemma_insert_sorted(s.drop_last(), e);
        let inner = insert_by_start(s.drop_last(), e);
        let out = inner.push(s.last());
        assert forall|i: int, j: int| 0 <= i <= j < out.len() implies out[i].0.start.key()
            <= out[j].0.start.key() by {
            lemma_insert_members(s.drop_last(), e);
            if j < out.len() - 1 {
                assert(out[i] == inner[i] && out[j] == inner[j]);
            } else if i < out.len() - 1 {
                // out[j] is s.last(); every inner element is e or from s.drop_last()
                assert(out[i] == inner[i]);
            }
        }
    } else {
        let out = s.push(e);
        assert forall|i: int, j: int| 0 <= i <= j < out.len() implies out[i].0.start.key()
            <= out[j].0.start.key() by {
            if j == out.len() - 1 && i < j {
                assert(s[i].0.start.key() <= s.last().0.start.key());
            }
        }
    }
}

/// Every entry of an insertion's result is the new entry or one of the
/// original ones.
proof fn lemma_insert_members<T: TimeNext, V>(s: Seq<(TimeRange<T>, V)>, e: (TimeRange<T>, V))
    ensures
        forall|i: int|
            0 <= i < insert_by_start(s, e).len() ==> (#[trigger] insert_by_start(s, e)[i]) == e
                || exists|j: int| 0 <= j < s.len() && insert_by_start(s, e)[i] == s[j],
    decreases s.len(),
{
    if s.len() == 0 {
    } else if e.0.start.key() < s.last().0.start.key() {
        lemma_insert_members(s.drop_last(), e);
        let inner = insert_by_start(s.drop_last(), e);
        let out = inner.push(s.last());
        assert forall|i: int| 0 <= i < out.len() implies (#[trigger] out[i]) == e || exists|j: int|
            0 <= j < s.len() && out[i] == s[j] by {
            if i < out.len() - 1 {
                assert(out[i] == inner[i]);
                if inner[i] != e {
                    let j = choose|j: int| 0 <= j < s.drop_last().len() && inner[i] == s.drop_last()[j];
                    assert(out[i] == s[j]);
                }
            } else {
                assert(out[i] == s[s.len() - 1]);
            }
        }
    } else {
        let out = s.push(e);
        assert forall|i: int| 0 <= i < out.len() implies (#[trigger] out[i]) == e || exists|j: int|
            0 <= j < s.len() && out[i] == s[j] by {
            if i < out.len() - 1 {
                assert(out[i] == s[i]);
            }
        }
    }
}

/// Sorting leaves the entries in start order.
pub proof fn lemma_sort_sorted<T: TimeNext, V>(s: Seq<(TimeRange<T>, V)>)
    ensures
        sorted_by_start(sort_by_start(s)),
        sort_by_start(s).len() == s.len(),
    decreases s.len(),
{
    if s.len() > 0 {
        lemma_sort_sorted(s.drop_last());
        lemma_insert_sorted(sort_by_start(s.drop_last()), s.last());
    }
}

/// A piecewise-constant function of time, queried by point-in-time
/// lookup. Built once by [`LookupTable::new`], which sorts the entries by
/// start and rejects anything but one seamless interval.
#[derive(Debug, Clone)]
pub struct LookupTable<T: TimeNext, V> {
    ranges: Vec<(TimeRange<T>, V)>,
}

impl<T: TimeNext, V: Copy> LookupTable<T, V> {
    /// The table's entries, sorted by start.
    pub closed spec fn entries(self) -> Seq<(TimeRange<T>, V)> {
        self.ranges@
    }

    /// The table's well-formedness: its entries form a chain.
    pub open spec fn wf(self) -> bool {
        chain(self.entries())
    }

    /// Insert an entry into a start-sorted list, keeping it sorted.
    fn sorted_insert(out: &mut Vec<(TimeRange<T>, V)>, e: (TimeRange<T>, V))
        ensures
            final(out)@ == insert_by_start(old(out)@, e),
    {
        let mut pos: usize = out.len();
        proof {
            assert(out@.take(out@.len() as int) =~= out@);
            assert(insert_by_start(out@, e) + out@.skip(out@.len() as int) =~= insert_by_start(
                out@,
                e,
            ));
        }
        while pos > 0 && e.0.start.before(&out[pos - 1].0.start)
            invariant
                0 <= pos <= out@.len(),
                insert_by_start(out@, e) == insert_by_start(out@.take(pos as int), e) + out@.skip(
                    pos as int,
                ),
            decreases pos,
        {
            proof {
                let t = out@.take(pos as int);
                assert(t.drop_last() =~= out@.take(pos as int - 1));
                assert(insert_by_start(t, e) == insert_by_start(t.drop_last(), e).push(t.last()));
                assert(insert_by_start(t.drop_last(), e).push(t.last()) + out@.skip(pos as int)
                    =~= insert_by_start(t.drop_last(), e) + out@.skip(pos as int - 1));
            }
            pos = pos - 1;
        }
        proof {
            let t = out@.take(pos as int);
            if pos > 0 {
                assert(t.last() == out@[pos as int - 1]);
                assert(insert_by_start(t, e) == t.push(e));
            } else {
                assert(t =~= Seq::empty());
                assert(insert_by_start(t, e) == Seq::<(TimeRange<T>, V)>::empty().push(e));
                assert(Seq::<(TimeRange<T>, V)>::empty().push(e) =~= t.push(e));
            }
            assert(t.push(e) + out@.skip(pos as int) =~= out@.insert(pos as int, e));
        }
        out.insert(pos, e);
    }

    /// Build a table from entries given in any order. The entries are
    /// sorted by start; construction succeeds exactly when the sorted
    /// entries form one seamless interval, and the table then holds them
    /// in that order.
    pub fn new(ranges: Vec<(TimeRange<T>, V)>) -> (r: Result<Self, TableError>)
        ensures
            r matches Ok(t) ==> t.entries() == sort_by_start(ranges@) && t.wf(),
            r is Ok <==> chain(sort_by_start(ranges@)),
            ranges@.len() == 0 ==> r == Err::<Self, TableError>(TableError::Empty),
            r matches Err(e) ==> (match e {
                TableError::Empty => ranges@.len() == 0,
                TableError::BadEntry { index } => {
                    let s = sort_by_start(ranges@);
                    index < s.len() && !(s[index as int].0.start.key() < s[index as int].0.end.key())
                },
                TableError::NotContiguous { index } => {
                    let s = sort_by_start(ranges@);
                    1 <= index < s.len() && s[index as int].0.start.key() != s[index as int
                        - 1].0.end.key()
                },
            }),
    {
        if ranges.len() == 0 {
            return Err(TableError::Empty);
        }
        let mut sorted: Vec<(TimeRange<T>, V)> = Vec::new();
        let mut i: usize = 0;
        while i < ranges.len()
            invariant
                0 <= i <= ranges@.len(),
                sorted@ == sort_by_start(ranges@.take(i as int)),
            decreases ranges@.len() - i,
        {
            proof {
                assert(ranges@.take(i as int + 1).drop_last() =~= ranges@.take(i as int));
                assert(ranges@.take(i as int + 1).last() == ranges@[i as int]);
            }
            Self::sorted_insert(&mut sorted, ranges[i]);
            i = i + 1;
        }
        proof {
            assert(ranges@.take(ranges@.len() as int) =~= ranges@);
        }
        let ghost s = sort_by_start(ranges@);
        proof {
            lemma_sort_sorted(ranges@);
        }
        let n = sorted.len();
        let mut k: usize = 0;
        while k < n
            invariant
                0 <= k <= n,
                n == sorted@.len(),
                sorted@ == s,
                s == sort_by_start(ranges@),
                ranges@.len() > 0,
                forall|i: int| 0 <= i < k ==> (#[trigger] s[i]).0.start.key() < s[i].0.end.key(),
                forall|i: int| 1 <= i < k ==> (#[trigger] s[i]).0.start.key() == s[i - 1].0.end.key(),
            decreases n - k,
        {
            if !sorted[k].0.start.before(&sorted[k].0.end) {
                return Err(TableError::BadEntry { index: k });
            }
            if k > 0 {
                let prev_end = sorted[k - 1].0.end;
                let start = sorted[k].0.start;
                if prev_end.before(&start) || start.before(&prev_end) {
                    return Err(TableError::NotContiguous { index: k });
                }
            }
            k = k + 1;
        }
        Ok(LookupTable { ranges: sorted })
    }

    /// The interval the table covers: from the first entry's start to the
    /// last entry's end.
    pub fn range(&self) -> (r: TimeRange<T>)
        requires
            self.entries().len() > 0,
        ensures
            r.start == self.entries().first().0.start,
            r.end == self.entries().last().0.end,
    {
        let first = &self.ranges[0];
        let start = first.0.start;
        let end = self.ranges[self.ranges.len() - 1].0.end;
        TimeRange { start, end }
    }

    /// The value at a point in time: the value of the entry whose range
    /// contains it, or an error when the time lies outside the covered
    /// interval.
    pub fn value_at(&self, time: &T) -> (r: Result<V, EvalError>)
        ensures
            r is Ok <==> lookup_spec(self.entries(), time.key()) is Some,
            r matches Ok(v) ==> lookup_spec(self.entries(), time.key()) == Some(v),
            r matches Err(e) ==> e == EvalError::TimeNotInTable,
    {
        let n = self.ranges.len();
        let mut i: usize = 0;
        proof {
            assert(self.entries().skip(0) =~= self.entries());
        }
        while i < n
            invariant
                0 <= i <= n,
                n == self.entries().len(),
                lookup_spec(self.entries(), time.key()) == lookup_spec(
                    self.entries().skip(i as int),
                    time.key(),
                ),
            decreases n - i,
        {
            let entry = &self.ranges[i];
            let starts_ok = !time.before(&entry.0.start);
            let ends_ok = time.before(&entry.0.end);
            proof {
                assert(self.entries().skip(i as int).first() == self.entries()[i as int]);
                assert(self.entries().skip(i as int).drop_first() =~= self.entries().skip(
                    i as int + 1,
                ));
            }
            if starts_ok && ends_ok {
                return Ok(entry.1);
            }
            i = i + 1;
        }
        proof {
            assert(self.entries().skip(n as int) =~= Seq::empty());
        }
        Err(EvalError::TimeNotInTable)
    }
}

/// The entries of a money-valued time table, for concrete specifications.
pub closed spec fn money_entries(t: LookupTable<Time, Money>) -> Seq<(TimeRange<Time>, Money)> {
    t.ranges@
}

/// The entries of a rate-valued time table, for concrete specifications.
pub closed spec fn rate_entries(t: LookupTable<Time, Rate>) -> Seq<(TimeRange<Time>, Rate)> {
    t.ranges@
}

/// The two views of a money table's entries agree.
pub proof fn lemma_money_entries(t: LookupTable<Time, Money>)
    ensures
        money_entries(t) == t.entries(),
{
}

/// The two views of a rate table's entries agree.
pub proof fn lemma_rate_entries(t: LookupTable<Time, Rate>)
    ensures
        rate_entries(t) == t.entries(),
{
}

/// In a chain, start keys grow strictly with the position.
proof fn lemma_chain_increasing<T: TimeNext, V>(s: Seq<(TimeRange<T>, V)>, i: int, j: int)
    requires
        chain(s),
        0 <= i < j < s.len(),
    ensures
        s[i].0.start.key() < s[j].0.start.key(),
    decreases j - i,
{
    if j == i + 1 {
        assert(s[j].0.start.key() == s[i].0.end.key());
    } else {
        lemma_chain_increasing(s, i, j - 1);
        assert(s[j].0.start.key() == s[j - 1].0.end.key());
    }
}

/// A start-sorted list with the same entries as a strictly start-ordered
/// list is that list.
proof fn lemma_sorted_perm<T: TimeNext, V>(p: Seq<(TimeRange<T>, V)>, q: Seq<(TimeRange<T>, V)>)
    requires
        forall|i: int, j: int|
            0 <= i < j < p.len() ==> (#[trigger] p[i]).0.start.key() < (
            #[trigger] p[j]).0.start.key(),
        sorted_by_start(q),
        p.to_multiset() == q.to_multiset(),
    ensures
        p =~= q,
    decreases p.len(),
{
    broadcast use group_to_multiset_ensures;
    broadcast use vstd::multiset::group_multiset_axioms;

    assert(p.len() == p.to_multiset().len());
    assert(q.len() == q.to_multiset().len());
    if p.len() > 0 {
        // each list's last entry appears in the other
        assert(q.contains(q.last()));
        assert(p.to_multiset().count(q.last()) > 0);
        assert(p.contains(q.last()));
        let qi = choose|i: int| 0 <= i < p.len() && p[i] == q.last();
        assert(q.to_multiset().count(p.last()) > 0);
        assert(q.contains(p.last()));
        let pj = choose|j: int| 0 <= j < q.len() && q[j] == p.last();
        // so the last start keys agree, and by strictness the entries do
        assert(q[pj].0.start.key() <= q.last().0.start.key());
        assert(qi < p.len() - 1 ==> p[qi].0.start.key() < p.last().0.start.key());
        assert(p[qi] == q.last());
        assert(q.last() == p.last());
        // drop the shared last entry and recurse
        assert(p.remove(p.len() - 1).to_multiset() =~= p.to_multiset().remove(p.last()));
        assert(q.remove(q.len() - 1).to_multiset() =~= q.to_multiset().remove(q.last()));
        assert(p.remove(p.len() - 1) =~= p.drop_last());
        assert(q.remove(q.len() - 1) =~= q.drop_last());
        assert(forall|i: int| 0 <= i < p.len() - 1 ==> #[trigger] p.drop_last()[i] == p[i]);
        assert(forall|i: int| 0 <= i < q.len() - 1 ==> #[trigger] q.drop_last()[i] == q[i]);
        assert(sorted_by_start(q.drop_last()));
        lemma_sorted_perm(p.drop_last(), q.drop_last());
        assert(p =~= p.drop_last().push(p.last()));
        assert(q =~= q.drop_last().push(q.last()));
    }
}

/// Any entries that can be arranged into one seamless interval are
/// accepted: sorting them by start recovers exactly that arrangement, so
/// [`LookupTable::new`] succeeds on every permutation of a valid cover.
pub proof fn lemma_chainable_sorts_to_chain<T: TimeNext, V>(
    p: Seq<(TimeRange<T>, V)>,
    s: Seq<(TimeRange<T>, V)>,
)
    requires
        chain(p),
        p.to_multiset() == s.to_multiset(),
    ensures
        sort_by_start(s) == p,
        chain(sort_by_start(s)),
{
    lemma_sort_multiset(s);
    lemma_sort_sorted(s);
    assert forall|i: int, j: int| 0 <= i < j < p.len() implies (#[trigger] p[i]).0.start.key() < (
    #[trigger] p[j]).0.start.key() by {
        lemma_chain_increasing(p, i, j);
    }
    lemma_sorted_perm(p, sort_by_start(s));
}

/// In a chain, every key from the covered interval finds an entry, and
/// every key outside it finds none.
pub proof fn lemma_chain_lookup<T: TimeNext, V>(s: Seq<(TimeRange<T>, V)>, k: int)
    requires
        chain(s),
    ensures
        s.first().0.start.key() < s.last().0.end.key(),
        s.first().0.start.key() <= k < s.last().0.end.key() ==> lookup_spec(s, k) is Some,
        !(s.first().0.start.key() <= k < s.last().0.end.key()) ==> lookup_spec(s, k) is None,
    decreases s.len(),
{
    if s.len() == 1 {
    } else {
        let rest = s.drop_first();
        assert(chain(rest)) by {
            assert(forall|i: int| 0 <= i < rest.len() ==> #[trigger] rest[i] == s[i + 1]);
        }
        assert(rest.last() == s.last());
        lemma_chain_lookup(rest, k);
        assert(rest.first() == s[1]);
    }
}

} // verus!
