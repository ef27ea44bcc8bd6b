//! Intervals over a scalar type, the relation that orders them, and a map
//! from pairwise disjoint intervals to values.

use vstd::prelude::*;
use crate::scalar::Scalar;

verus! {

/// A non-empty run of consecutive scalars.
///
/// `Range(lo, hi)` is half-open: it covers every `x` with `lo <= x < hi`,
/// and is valid when `lo < hi`. `Scope(lo, hi)` is closed: it covers every
/// `x` with `lo <= x <= hi`, and is valid when `lo <= hi`; `Scope(x, x)` is
/// the single point `x`.
#[derive(Clone, Copy, Debug, PartialEq, Eq)]
pub enum Interval<T: Scalar> {
    Range(T, T),
    Scope(T, T),
}

/// How one interval lies relative to another.
///
/// `Equal` does not mean identity: it means that the two intervals share a
/// point. As an equality it is therefore not transitive, and it orders a set
/// of intervals consistently only where no two of them overlap.
#[derive(Clone, Copy, Debug, PartialEq, Eq)]
pub enum Placement {
    Less,
    Equal,
    Greater,
}

impl<T: Scalar> Interval<T> {
    /// The least integer covered.
    pub open spec fn low(self) -> int {
        match self {
            Interval::Range(lo, _) => lo.value(),
            Interval::Scope(lo, _) => lo.value(),
        }
    }

    /// The greatest integer covered.
    pub open spec fn top(self) -> int {
        match self {
            Interval::Range(_, hi) => hi.value() - 1,
            Interval::Scope(_, hi) => hi.value(),
        }
    }

    /// The bounds are in order, so that the interval covers something.
    pub open spec fn valid(self) -> bool {
        self.low() <= self.top()
    }

    /// Whether the integer `x` lies in the interval.
    pub open spec fn covers(self, x: int) -> bool {
        self.low() <= x <= self.top()
    }

    /// Whether the scalar `x` lies in the interval.
    pub open spec fn contains(self, x: T) -> bool {
        self.covers(x.value())
    }

    /// Every point of `self` lies under every point of `that`.
    pub open spec fn below(self, that: Self) -> bool {
        self.top() < that.low()
    }

    /// Neither interval lies wholly under the other.
    pub open spec fn overlaps(self, that: Self) -> bool {
        !self.below(that) && !that.below(self)
    }

    /// The relation by which intervals are ordered.
    pub open spec fn placement(self, that: Self) -> Placement {
        if self.below(that) {
            Placement::Less
        } else if that.below(self) {
            Placement::Greater
        } else {
            Placement::Equal
        }
    }

    /// A valid interval near an invalid one: the bounds swapped where they
    /// are reversed, and the single point where a half-open range is empty.
    pub open spec fn corrected(self) -> Self {
        match self {
            Interval::Range(lo, hi) => if hi.value() < lo.value() {
                Interval::Range(hi, lo)
            } else {
                Interval::Scope(lo, hi)
            },
            Interval::Scope(lo, hi) => Interval::Scope(hi, lo),
        }
    }

    /// The single point `x`.
    pub fn point(x: T) -> (r: Self)
        ensures
            r == Interval::Scope(x, x),
            r.valid(),
            forall|y: int| r.covers(y) <==> y == x.value(),
    {
        Interval::Scope(x, x)
    }

    /// Whether the bounds are in order.
    pub fn is_valid(&self) -> (b: bool)
        ensures
            b == self.valid(),
    {
        match self {
            Interval::Range(lo, hi) => lo.less_than(hi),
            Interval::Scope(lo, hi) => !hi.less_than(lo),
        }
    }

    /// Whether the two intervals are the same variant with the same bounds.
    pub fn same(&self, that: &Self) -> (b: bool)
        ensures
            b == (*self == *that),
    {
        match (self, that) {
            (Interval::Range(a, b), Interval::Range(c, d)) => {
                proof {
                    if a.value() == c.value() {
                        a.value_is_injective(*c);
                    }
                    if b.value() == d.value() {
                        b.value_is_injective(*d);
                    }
                }
                !a.less_than(c) && !c.less_than(a) && !b.less_than(d) && !d.less_than(b)
            },
            (Interval::Scope(a, b), Interval::Scope(c, d)) => {
                proof {
                    if a.value() == c.value() {
                        a.value_is_injective(*c);
                    }
                    if b.value() == d.value() {
                        b.value_is_injective(*d);
                    }
                }
                !a.less_than(c) && !c.less_than(a) && !b.less_than(d) && !d.less_than(b)
            },
            _ => false,
        }
    }

    /// Whether every point of `self` lies under every point of `that`.
    pub fn is_below(&self, that: &Self) -> (b: bool)
        ensures
            b == self.below(*that),
    {
        let lo = match that {
            Interval::Range(lo, _) => lo,
            Interval::Scope(lo, _) => lo,
        };
        match self {
            Interval::Range(_, hi) => !lo.less_than(hi),
            Interval::Scope(_, hi) => hi.less_than(lo),
        }
    }

    /// Orders two valid intervals: `Less` where `self` lies wholly under
    /// `that`, `Greater` where it lies wholly above, and `Equal` where the
    /// two share a point.
    pub fn compare(&self, that: &Self) -> (r: Placement)
        requires
            self.valid(),
            that.valid(),
        ensures
            r == self.placement(*that),
            r == Placement::Less <==> self.top() < that.low(),
            r == Placement::Greater <==> that.top() < self.low(),
            r == Placement::Equal <==> exists|x: int| self.covers(x) && that.covers(x),
    {
        proof {
            Self::overlap_is_shared_point(*self, *that);
        }
        if self.is_below(that) {
            Placement::Less
        } else if that.is_below(self) {
            Placement::Greater
        } else {
            Placement::Equal
        }
    }

    /// The interval to suggest in place of `self` where `self` is invalid.
    pub fn correct(&self) -> (r: Self)
        ensures
            r == self.corrected(),
    {
        match self {
            Interval::Range(lo, hi) => if hi.less_than(lo) {
                Interval::Range(*hi, *lo)
            } else {
                Interval::Scope(*lo, *hi)
            },
            Interval::Scope(lo, hi) => Interval::Scope(*hi, *lo),
        }
    }

    /// Two valid intervals overlap exactly when some integer lies in both.
    pub proof fn overlap_is_shared_point(a: Self, b: Self)
        requires
            a.valid(),
            b.valid(),
        ensures
            a.overlaps(b) <==> exists|x: int| a.covers(x) && b.covers(x),
    {
        if a.overlaps(b) {
            let x = if a.low() <= b.low() { b.low() } else { a.low() };
            assert(a.covers(x) && b.covers(x));
        }
    }

    /// Overlapping is not transitive: `b` may overlap both `a` and `c` while
    /// `a` lies wholly under `c`.
    pub proof fn overlap_is_not_transitive(a: Self, b: Self, c: Self)
        requires
            a.valid(),
            c.valid(),
            a.below(c),
            b.low() <= a.top(),
            c.low() <= b.top(),
        ensures
            a.overlaps(b),
            b.overlaps(c),
            !a.overlaps(c),
    {
    }

    /// Seen from the other side, `Less` is `Greater` and `Equal` stays
    /// `Equal`.
    pub proof fn placement_mirrors(a: Self, b: Self)
        requires
            a.valid(),
            b.valid(),
        ensures
            a.placement(b) == Placement::Less <==> b.placement(a) == Placement::Greater,
            a.placement(b) == Placement::Equal <==> b.placement(a) == Placement::Equal,
            a.placement(a) == Placement::Equal,
    {
    }

    /// Among valid intervals, lying wholly under another is transitive, so
    /// that intervals of which no two overlap are in a strict total order.
    pub proof fn below_is_transitive(a: Self, b: Self, c: Self)
        requires
            b.valid(),
            a.below(b),
            b.below(c),
        ensures
            a.below(c),
    {
    }

    /// The interval suggested in place of an invalid one is valid.
    pub proof fn corrected_is_valid(self)
        requires
            !self.valid(),
        ensures
            self.corrected().valid(),
    {
    }
}

impl<T: Scalar> From<T> for Interval<T> {
    fn from(t: T) -> (r: Self) {
        Interval::Scope(t, t)
    }
}

impl<T: Scalar> vstd::std_specs::convert::FromSpecImpl<T> for Interval<T> {
    open spec fn obeys_from_spec() -> bool {
        true
    }

    open spec fn from_spec(t: T) -> Self {
        Interval::Scope(t, t)
    }
}

impl<T: Scalar> From<(T, T)> for Interval<T> {
    fn from(t: (T, T)) -> (r: Self) {
        Interval::Scope(t.0, t.1)
    }
}

impl<T: Scalar> vstd::std_specs::convert::FromSpecImpl<(T, T)> for Interval<T> {
    open spec fn obeys_from_spec() -> bool {
        true
    }

    open spec fn from_spec(t: (T, T)) -> Self {
        Interval::Scope(t.0, t.1)
    }
}

/// Why an insertion was refused. Each variant holds the interval that was
/// offered, then a second one: for `Invalid` a valid interval to use in its
/// place, for `Conflict` a stored interval that it overlaps.
#[derive(Clone, Copy, Debug, PartialEq, Eq)]
pub enum IntervalError<K: Scalar> {
    Invalid([Interval<K>; 2]),
    Conflict([Interval<K>; 2]),
}

/// Entries of a map, as a sequence: each an interval and the value it has.
pub type Entries<K, V> = Seq<(Interval<K>, V)>;

/// Every interval of `s` is valid, and each lies wholly under the next.
pub open spec fn ordered<K: Scalar, V>(s: Entries<K, V>) -> bool {
    &&& forall|i: int| 0 <= i < s.len() ==> (#[trigger] s[i]).0.valid()
    &&& forall|i: int, j: int|
        0 <= i < j < s.len() ==> (#[trigger] s[i]).0.below((#[trigger] s[j]).0)
}

/// No interval of `s` overlaps `key`.
pub open spec fn vacant<K: Scalar, V>(s: Entries<K, V>, key: Interval<K>) -> bool {
    forall|i: int| 0 <= i < s.len() ==> !(#[trigger] s[i]).0.overlaps(key)
}

/// `p` parts `s` into the intervals wholly under `key` and those wholly
/// above it.
pub open spec fn parts_at<K: Scalar, V>(s: Entries<K, V>, key: Interval<K>, p: int) -> bool {
    &&& 0 <= p <= s.len()
    &&& forall|i: int| 0 <= i < p ==> (#[trigger] s[i]).0.below(key)
    &&& forall|i: int| p <= i < s.len() ==> key.below((#[trigger] s[i]).0)
}

/// How many intervals of `s` lie wholly under `key`.
pub open spec fn rank<K: Scalar, V>(s: Entries<K, V>, key: Interval<K>) -> int
    decreases s.len(),
{
    if s.len() == 0 {
        0
    } else if s.last().0.below(key) {
        rank(s.drop_last(), key) + 1
    } else {
        rank(s.drop_last(), key)
    }
}

/// `s` with `key` and `value` put in at the place that keeps it ordered.
pub open spec fn inserted<K: Scalar, V>(
    s: Entries<K, V>,
    key: Interval<K>,
    value: V,
) -> Entries<K, V> {
    s.insert(rank(s, key), (key, value))
}

/// Whether some interval of `s` contains the point `x`.
pub open spec fn covered<K: Scalar, V>(s: Entries<K, V>, x: K) -> bool {
    exists|i: int| 0 <= i < s.len() && (#[trigger] s[i]).0.contains(x)
}

/// Where in `s` the point `x` is covered, if it is.
pub open spec fn place_of<K: Scalar, V>(s: Entries<K, V>, x: K) -> int {
    choose|i: int| 0 <= i < s.len() && (#[trigger] s[i]).0.contains(x)
}

/// The entry of `s` whose interval contains the point `x`.
pub open spec fn lookup<K: Scalar, V>(s: Entries<K, V>, x: K) -> Option<(Interval<K>, V)> {
    if covered(s, x) {
        Some(s[place_of(s, x)])
    } else {
        None
    }
}

/// The value that `s` holds for the point `x`.
pub open spec fn value_at<K: Scalar, V>(s: Entries<K, V>, x: K) -> Option<V> {
    match lookup(s, x) {
        Some(e) => Some(e.1),
        None => None,
    }
}

/// Where in `s` the interval `key` itself is stored, if it is.
pub open spec fn stored<K: Scalar, V>(s: Entries<K, V>, key: Interval<K>) -> bool {
    exists|i: int| 0 <= i < s.len() && (#[trigger] s[i]).0 == key
}

/// The place of the stored interval `key` in `s`.
pub open spec fn index_of<K: Scalar, V>(s: Entries<K, V>, key: Interval<K>) -> int {
    choose|i: int| 0 <= i < s.len() && (#[trigger] s[i]).0 == key
}

/// What putting `key` in with `value` does to the entries `before`: `r` is
/// the answer given and `after` the entries left. The entries change only
/// where the answer is `Ok`, which it is exactly where `key` is valid and
/// overlaps nothing; an invalid `key` comes back with the interval suggested
/// in its place, and one that overlaps comes back with a stored interval that
/// it overlaps.
pub open spec fn insertion<K: Scalar, V>(
    before: Entries<K, V>,
    key: Interval<K>,
    value: V,
    r: Result<(), IntervalError<K>>,
    after: Entries<K, V>,
) -> bool {
    match r {
        Ok(_) => {
            &&& key.valid()
            &&& vacant(before, key)
            &&& after == inserted(before, key, value)
        },
        Err(IntervalError::Invalid(pair)) => {
            &&& !key.valid()
            &&& pair[0] == key
            &&& pair[1] == key.corrected()
            &&& after == before
        },
        Err(IntervalError::Conflict(pair)) => {
            &&& key.valid()
            &&& !vacant(before, key)
            &&& pair[0] == key
            &&& stored(before, pair[1])
            &&& pair[1].overlaps(key)
            &&& after == before
        },
    }
}

/// In an ordered sequence no two entries overlap, so an interval that
/// overlaps one entry is met at one place only where it is stored itself,
/// and a point is covered at one place at most.
pub proof fn ordered_entries_are_disjoint<K: Scalar, V>(s: Entries<K, V>, i: int, j: int)
    requires
        ordered(s),
        0 <= i < s.len(),
        0 <= j < s.len(),
        s[i].0.overlaps(s[j].0),
    ensures
        i == j,
{
    if i < j {
        assert(s[i].0.below(s[j].0));
    } else if j < i {
        assert(s[j].0.below(s[i].0));
    }
}

/// In an ordered sequence, an entry whose interval contains a point is the
/// one that a lookup of the point gives.
pub proof fn covering_entry_is_found<K: Scalar, V>(s: Entries<K, V>, i: int, x: K)
    requires
        ordered(s),
        0 <= i < s.len(),
        s[i].0.contains(x),
    ensures
        covered(s, x),
        lookup(s, x) == Some(s[i]),
{
    let j = place_of(s, x);
    assert(s[j].0.overlaps(s[i].0));
    ordered_entries_are_disjoint(s, i, j);
}

/// In an ordered sequence, a stored interval is stored at one place only.
pub proof fn stored_once<K: Scalar, V>(s: Entries<K, V>, i: int)
    requires
        ordered(s),
        0 <= i < s.len(),
    ensures
        stored(s, s[i].0),
        index_of(s, s[i].0) == i,
{
    let j = index_of(s, s[i].0);
    assert(s[j].0.overlaps(s[i].0));
    ordered_entries_are_disjoint(s, i, j);
}

/// In an ordered sequence, the place that parts it around a valid `key` is
/// the number of intervals under `key`.
pub proof fn rank_parts<K: Scalar, V>(s: Entries<K, V>, key: Interval<K>, p: int)
    requires
        ordered(s),
        key.valid(),
        parts_at(s, key, p),
    ensures
        rank(s, key) == p,
    decreases s.len(),
{
    if s.len() > 0 {
        let t = s.drop_last();
        assert(ordered(t)) by {
            assert forall|i: int| 0 <= i < t.len() implies (#[trigger] t[i]).0.valid() by {
                assert(t[i] == s[i]);
            }
            assert forall|i: int, j: int| 0 <= i < j < t.len() implies (#[trigger] t[i]).0.below(
                (#[trigger] t[j]).0,
            ) by {
                assert(t[i] == s[i] && t[j] == s[j]);
            }
        }
        let last = s.last();
        assert(last == s[s.len() - 1]);
        assert(last.0.valid());
        if p == s.len() {
            assert(last.0.below(key));
            assert(parts_at(t, key, p - 1)) by {
                assert forall|i: int| 0 <= i < p - 1 implies (#[trigger] t[i]).0.below(key) by {
                    assert(t[i] == s[i]);
                }
            }
            rank_parts(t, key, p - 1);
        } else {
            assert(key.below(last.0));
            assert(parts_at(t, key, p)) by {
                assert forall|i: int| 0 <= i < p implies (#[trigger] t[i]).0.below(key) by {
                    assert(t[i] == s[i]);
                }
                assert forall|i: int| p <= i < t.len() implies key.below((#[trigger] t[i]).0) by {
                    assert(t[i] == s[i]);
                }
            }
            rank_parts(t, key, p);
        }
    }
}

/// Putting a valid `key` in at the place that parts an ordered sequence
/// around it leaves the sequence ordered.
pub proof fn insert_keeps_order<K: Scalar, V>(s: Entries<K, V>, key: Interval<K>, value: V, p: int)
    requires
        ordered(s),
        key.valid(),
        parts_at(s, key, p),
    ensures
        ordered(s.insert(p, (key, value))),
{
    let t = s.insert(p, (key, value));
    assert forall|i: int| 0 <= i < t.len() implies (#[trigger] t[i]).0.valid() by {
        if i < p {
            assert(t[i] == s[i]);
        } else if i > p {
            assert(t[i] == s[i - 1]);
        }
    }
    assert forall|i: int, j: int| 0 <= i < j < t.len() implies (#[trigger] t[i]).0.below(
        (#[trigger] t[j]).0,
    ) by {
        let a = if i < p { i } else { i - 1 };
        let b = if j < p { j } else { j - 1 };
        if i != p {
            assert(t[i] == s[a]);
        }
        if j != p {
            assert(t[j] == s[b]);
        }
    }
}

/// Taking an entry out of an ordered sequence leaves it ordered.
pub proof fn remove_keeps_order<K: Scalar, V>(s: Entries<K, V>, at: int)
    requires
        ordered(s),
        0 <= at < s.len(),
    ensures
        ordered(s.remove(at)),
{
    let t = s.remove(at);
    assert forall|i: int| 0 <= i < t.len() implies (#[trigger] t[i]).0.valid() by {
        let a = if i < at { i } else { i + 1 };
        assert(t[i] == s[a]);
    }
    assert forall|i: int, j: int| 0 <= i < j < t.len() implies (#[trigger] t[i]).0.below(
        (#[trigger] t[j]).0,
    ) by {
        let a = if i < at { i } else { i + 1 };
        let b = if j < at { j } else { j + 1 };
        assert(t[i] == s[a] && t[j] == s[b]);
    }
}

/// A map from pairwise disjoint intervals to values, kept in ascending order
/// of the intervals.
///
/// Its view is the sequence of its entries in that order.
pub struct IntervalTreeMap<K: Scalar, V> {
    entries: Vec<(Interval<K>, V)>,
}

impl<K: Scalar, V> View for IntervalTreeMap<K, V> {
    type V = Seq<(Interval<K>, V)>;

    closed spec fn view(&self) -> Entries<K, V> {
        self.entries@
    }
}

impl<K: Scalar, V> IntervalTreeMap<K, V> {
    /// What every map holds: an ordered sequence.
    #[verifier::type_invariant]
    spec fn in_order(self) -> bool {
        ordered(self.entries@)
    }

    /// An empty map.
    pub fn new() -> (r: Self)
        ensures
            r@ == Entries::<K, V>::empty(),
    {
        IntervalTreeMap { entries: Vec::new() }
    }

    /// The number of intervals in the map.
    pub fn len(&self) -> (n: usize)
        ensures
            n == self@.len(),
    {
        self.entries.len()
    }

    /// The entries in ascending order of their intervals.
    pub fn tree(&self) -> (r: &Vec<(Interval<K>, V)>)
        ensures
            r@ == self@,
            ordered(r@),
    {
        proof {
            use_type_invariant(self);
        }
        &self.entries
    }

    /// Searches the entries for `key` by bisection. `Ok(i)` is the place of
    /// an entry that overlaps `key`; `Err(p)` says that none does, and that
    /// `p` is where `key` belongs.
    fn find(&self, key: &Interval<K>) -> (r: Result<usize, usize>)
        requires
            key.valid(),
        ensures
            ordered(self@),
            match r {
                Ok(i) => i < self@.len() && self@[i as int].0.overlaps(*key),
                Err(p) => parts_at(self@, *key, p as int),
            },
    {
        proof {
            use_type_invariant(self);
        }
        let ghost s = self.entries@;
        let mut lo: usize = 0;
        let mut hi: usize = self.entries.len();
        while lo < hi
            invariant
                s == self.entries@,
                ordered(s),
                key.valid(),
                0 <= lo <= hi <= s.len(),
                forall|i: int| 0 <= i < lo ==> (#[trigger] s[i]).0.below(*key),
                forall|i: int| hi <= i < s.len() ==> key.below((#[trigger] s[i]).0),
            decreases hi - lo,
        {
            let mid: usize = lo + (hi - lo) / 2;
            match self.entries[mid].0.compare(key) {
                Placement::Less => {
                    assert forall|i: int| 0 <= i < mid + 1 implies (#[trigger] s[i]).0.below(
                        *key,
                    ) by {
                        if i < mid {
                            assert(s[i].0.below(s[mid as int].0));
                        }
                    }
                    lo = mid + 1;
                },
                Placement::Greater => {
                    assert forall|i: int| mid <= i < s.len() implies key.below(
                        (#[trigger] s[i]).0,
                    ) by {
                        if mid < i {
                            assert(s[mid as int].0.below(s[i].0));
                        }
                    }
                    hi = mid;
                },
                Placement::Equal => {
                    return Ok(mid);
                },
            }
        }
        Err(lo)
    }

    /// The entry whose interval contains `point`, if there is one.
    pub fn get_key_value(&self, point: K) -> (r: Option<(&Interval<K>, &V)>)
        ensures
            ordered(self@),
            match r {
                Some(e) => lookup(self@, point) == Some((*e.0, *e.1)) && e.0.contains(point),
                None => lookup(self@, point).is_none() && !covered(self@, point),
            },
    {
        let key = Interval::point(point);
        match self.find(&key) {
            Ok(i) => {
                let e = &self.entries[i];
                proof {
                    covering_entry_is_found(self@, i as int, point);
                }
                Some((&e.0, &e.1))
            },
            Err(_) => None,
        }
    }

    /// The value of the interval that contains `point`, if there is one.
    pub fn query(&self, point: K) -> (r: Option<&V>)
        ensures
            ordered(self@),
            match r {
                Some(v) => value_at(self@, point) == Some(*v),
                None => value_at(self@, point).is_none() && !covered(self@, point),
            },
    {
        match self.get_key_value(point) {
            Some(e) => Some(e.1),
            None => None,
        }
    }

    /// Puts `key` in with `value`, unless `key` is invalid or overlaps an
    /// interval of the map. The map changes only where `Ok` is returned;
    /// nothing is merged, split or overwritten.
    pub fn insert(&mut self, key: Interval<K>, value: V) -> (r: Result<(), IntervalError<K>>)
        ensures
            ordered(old(self)@),
            ordered(final(self)@),
            insertion(old(self)@, key, value, r, final(self)@),
            r.is_ok() <==> key.valid() && vacant(old(self)@, key),
    {
        proof {
            use_type_invariant(&*self);
        }
        if !key.is_valid() {
            return Err(IntervalError::Invalid([key, key.correct()]));
        }
        self._insert(key, value)
    }

    /// Puts the closed interval from `left` to `right` in with `value`, as
    /// `insert` does.
    pub fn insert_scope(&mut self, left: K, right: K, value: V) -> (r: Result<(), IntervalError<K>>)
        ensures
            ordered(old(self)@),
            ordered(final(self)@),
            insertion(old(self)@, Interval::Scope(left, right), value, r, final(self)@),
            r.is_ok() <==> left.value() <= right.value() && vacant(
                old(self)@,
                Interval::Scope(left, right),
            ),
    {
        self.insert(Interval::Scope(left, right), value)
    }

    /// Puts the single point `point` in with `value`.
    pub fn insert_point(&mut self, point: K, value: V) -> (r: Result<(), IntervalError<K>>)
        ensures
            ordered(old(self)@),
            ordered(final(self)@),
            match r {
                Ok(_) => {
                    &&& !covered(old(self)@, point)
                    &&& final(self)@ == inserted(old(self)@, Interval::Scope(point, point), value)
                },
                Err(IntervalError::Invalid(_)) => false,
                Err(IntervalError::Conflict(pair)) => {
                    &&& covered(old(self)@, point)
                    &&& pair[0] == Interval::Scope(point, point)
                    &&& lookup(old(self)@, point).is_some()
                    &&& pair[1] == lookup(old(self)@, point).unwrap().0
                    &&& final(self)@ == old(self)@
                },
            },
    {
        let ghost s = self@;
        let ghost key = Interval::Scope(point, point);
        let r = self.insert(Interval::Scope(point, point), value);
        proof {
            match r {
                Ok(_) => {
                    if covered(s, point) {
                        let i = place_of(s, point);
                        assert(s[i].0.overlaps(key));
                    }
                },
                Err(IntervalError::Invalid(_)) => {},
                Err(IntervalError::Conflict(pair)) => {
                    covering_entry_is_found(s, index_of(s, pair[1]), point);
                },
            }
        }
        r
    }

    /// Puts a valid `key` in, unless it overlaps an interval of the map.
    fn _insert(&mut self, key: Interval<K>, value: V) -> (r: Result<(), IntervalError<K>>)
        requires
            key.valid(),
        ensures
            ordered(old(self)@),
            ordered(final(self)@),
            insertion(old(self)@, key, value, r, final(self)@),
    {
        match self.find(&key) {
            Ok(i) => {
                let k1 = self.entries[i].0;
                Err(IntervalError::Conflict([key, k1]))
            },
            Err(p) => {
                proof {
                    rank_parts(self@, key, p as int);
                    insert_keeps_order(self@, key, value, p as int);
                }
                // The entries leave the map while they change, so that
                // the map holds an ordered sequence at every moment.
                let mut entries: Vec<(Interval<K>, V)> = Vec::new();
                core::mem::swap(&mut self.entries, &mut entries);
                entries.insert(p, (key, value));
                self.entries = entries;
                Ok(())
            },
        }
    }

    /// Takes `key` out of the map and returns its value, where `key` itself
    /// is stored. An interval that only overlaps a stored one removes
    /// nothing.
    pub fn remove(&mut self, key: &Interval<K>) -> (r: Option<V>)
        ensures
            ordered(old(self)@),
            ordered(final(self)@),
            match r {
                Some(v) => {
                    &&& stored(old(self)@, *key)
                    &&& v == old(self)@[index_of(old(self)@, *key)].1
                    &&& final(self)@ == old(self)@.remove(index_of(old(self)@, *key))
                },
                None => !stored(old(self)@, *key) && final(self)@ == old(self)@,
            },
    {
        proof {
            use_type_invariant(&*self);
        }
        let ghost s = self@;
        if !key.is_valid() {
            return None;
        }
        match self.find(key) {
            Ok(i) => {
                if self.entries[i].0.same(key) {
                    proof {
                        stored_once(s, i as int);
                    }
                    Some(self._remove(i))
                } else {
                    proof {
                        if stored(s, *key) {
                            ordered_entries_are_disjoint(s, i as int, index_of(s, *key));
                        }
                    }
                    None
                }
            },
            Err(_) => None,
        }
    }

    /// Takes the entry at the place `at` out of the map.
    fn _remove(&mut self, at: usize) -> (v: V)
        requires
            at < old(self)@.len(),
        ensures
            ordered(final(self)@),
            v == old(self)@[at as int].1,
            final(self)@ == old(self)@.remove(at as int),
    {
        proof {
            use_type_invariant(&*self);
            remove_keeps_order(self@, at as int);
        }
        let mut entries: Vec<(Interval<K>, V)> = Vec::new();
        core::mem::swap(&mut self.entries, &mut entries);
        let e = entries.remove(at);
        self.entries = entries;
        e.1
    }
}

} // verus!
