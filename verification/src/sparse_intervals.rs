use vstd::prelude::*;
use crate::decimal::{decimal, usize_to_decimal};

verus! {

/// A half-open range of frame indices `[start, end)`.
#[derive(Clone, Copy, Debug)]
pub struct Interval {
    pub start: usize,
    pub end: usize,
}

impl Interval {
    /// The interval is well formed: it does not end before it starts.
    pub open spec fn wf(self) -> bool {
        self.start <= self.end
    }

    /// Frame `p` lies in `[start, end)`.
    pub open spec fn has_point(self, p: int) -> bool {
        self.start <= p < self.end
    }

    /// Builds `[start, end)`; an interval that ends before it starts is refused.
    pub fn new(start: usize, end: usize) -> (r: Self)
        requires
            start <= end,
        ensures
            r.start == start,
            r.end == end,
    {
        Interval { start, end }
    }

    /// Shifts both bounds by `offset`.
    pub fn offset(&self, offset: usize) -> (r: Self)
        requires
            self.end + offset <= usize::MAX,
            self.start + offset <= usize::MAX,
        ensures
            r.start == self.start + offset,
            r.end == self.end + offset,
    {
        Interval { start: self.start + offset, end: self.end + offset }
    }

    /// Number of frames in the interval.
    pub fn length(&self) -> (r: usize)
        requires
            self.wf(),
        ensures
            r == self.end - self.start,
    {
        self.end - self.start
    }

    /// The interval holds no frame.
    pub fn is_trivial(&self) -> (r: bool)
        ensures
            r == (self.start == self.end),
    {
        self.start == self.end
    }

    /// The text `[start, end) (length)` that `to_display_string` writes.
    pub open spec fn display_text(self) -> Seq<char> {
        seq!['['] + decimal(self.start as nat) + seq![',', ' '] + decimal(self.end as nat) + seq![
            ')',
            ' ',
            '(',
        ] + decimal((self.end - self.start) as nat) + seq![')']
    }

    /// Writes the interval as `[start, end) (length)`.
    pub fn to_display_string(&self) -> (r: String)
        requires
            self.wf(),
        ensures
            r@ == self.display_text(),
    {
        proof {
            reveal_strlit("[");
            reveal_strlit(", ");
            reveal_strlit(") (");
            reveal_strlit(")");
        }
        let mut r = String::from_str("[");
        let a = usize_to_decimal(self.start);
        r.append(a.as_str());
        r.append(", ");
        let b = usize_to_decimal(self.end);
        r.append(b.as_str());
        r.append(") (");
        let c = usize_to_decimal(self.end - self.start);
        r.append(c.as_str());
        r.append(")");
        r
    }

    /// `inner` lies within `self`.
    pub open spec fn spec_contains(self, inner: Interval) -> bool {
        inner.start >= self.start && inner.end <= self.end
    }

    /// The test that `intersection` and `unify` apply before they combine
    /// two intervals: `other` ends inside `self` or exactly at its end.
    pub open spec fn ends_within(self, other: Interval) -> bool {
        !(self.start > other.end || other.end > self.end)
    }

    /// What `intersection` returns.
    pub open spec fn spec_intersection(self, other: Interval) -> Option<Interval> {
        if self.ends_within(other) {
            Some(
                Interval {
                    start: if self.start >= other.start { self.start } else { other.start },
                    end: if self.end <= other.end { self.end } else { other.end },
                },
            )
        } else {
            None
        }
    }

    /// What `unify` returns.
    pub open spec fn spec_unify(self, other: Interval) -> Option<Interval> {
        if self.ends_within(other) {
            Some(
                Interval {
                    start: if self.start <= other.start { self.start } else { other.start },
                    end: if self.end >= other.end { self.end } else { other.end },
                },
            )
        } else {
            None
        }
    }

    /// What `subtract` returns.
    pub open spec fn spec_subtract(self, other: Interval) -> IntervalSubtraction {
        if self.spec_contains(other) {
            let head = Interval { start: self.start, end: other.start };
            let tail = Interval { start: other.end, end: self.end };
            if head.start == head.end && tail.start == tail.end {
                IntervalSubtraction::Empty
            } else if tail.start == tail.end {
                IntervalSubtraction::Single(head)
            } else if head.start == head.end {
                IntervalSubtraction::Single(tail)
            } else {
                IntervalSubtraction::Dual(head, tail)
            }
        } else {
            match self.spec_intersection(other) {
                Some(i) => if i.start == self.start {
                    if i.end == self.end {
                        IntervalSubtraction::Empty
                    } else {
                        IntervalSubtraction::Single(Interval { start: i.end, end: self.end })
                    }
                } else {
                    IntervalSubtraction::Single(Interval { start: self.start, end: i.start })
                },
                None => IntervalSubtraction::Empty,
            }
        }
    }

    /// `self` contains every frame of `inner`, bounds included.
    pub fn contains(&self, inner: &Self) -> (r: bool)
        ensures
            r == self.spec_contains(*inner),
    {
        inner.start >= self.start && inner.end <= self.end
    }

    /// Frame `inner` lies in `[start, end)`.
    pub fn contains_point(&self, inner: usize) -> (r: bool)
        ensures
            r == self.has_point(inner as int),
    {
        inner >= self.start && inner < self.end
    }

    /// The common part of `self` and `other` when `other` ends within `self`,
    /// else `None`. Fails (as `new` does) where that part would end before it starts.
    pub fn intersection(&self, other: &Self) -> (r: Option<Self>)
        requires
            self.ends_within(*other) ==> other.wf(),
        ensures
            r == self.spec_intersection(*other),
    {
        if self.start > other.end || other.end > self.end {
            None
        } else {
            let start = if self.start >= other.start { self.start } else { other.start };
            let end = if self.end <= other.end { self.end } else { other.end };
            Some(Interval::new(start, end))
        }
    }

    /// The span of `self` and `other` when `other` ends within `self`, else `None`.
    pub fn unify(&self, other: &Self) -> (r: Option<Self>)
        requires
            self.ends_within(*other) ==> (self.wf() || other.start <= self.end),
        ensures
            r == self.spec_unify(*other),
    {
        if self.start > other.end || other.end > self.end {
            None
        } else {
            let start = if self.start <= other.start { self.start } else { other.start };
            let end = if self.end >= other.end { self.end } else { other.end };
            Some(Interval::new(start, end))
        }
    }

    /// What is left of `self` once `other` is cut out of it.
    pub fn subtract(&self, other: &Self) -> (r: IntervalSubtraction)
        requires
            !self.spec_contains(*other) && self.ends_within(*other) ==> other.wf(),
        ensures
            r == self.spec_subtract(*other),
    {
        if self.contains(other) {
            let start_interval = Interval::new(self.start, other.start);
            let end_interval = Interval::new(other.end, self.end);
            match (start_interval.is_trivial(), end_interval.is_trivial()) {
                (true, true) => IntervalSubtraction::Empty,
                (false, true) => IntervalSubtraction::Single(start_interval),
                (true, false) => IntervalSubtraction::Single(end_interval),
                (false, false) => IntervalSubtraction::Dual(
                    Interval::new(self.start, other.start),
                    Interval::new(other.end, self.end),
                ),
            }
        } else if let Some(i) = self.intersection(other) {
            if i.start == self.start {
                if i.end == self.end {
                    IntervalSubtraction::Empty
                } else {
                    IntervalSubtraction::Single(Interval::new(i.end, self.end))
                }
            } else {
                IntervalSubtraction::Single(Interval::new(self.start, i.start))
            }
        } else {
            IntervalSubtraction::Empty
        }
    }
}

/// The pieces that remain after cutting one interval out of another.
#[derive(Clone, Copy, Debug)]
pub enum IntervalSubtraction {
    Empty,
    Single(Interval),
    Dual(Interval, Interval),
}

impl IntervalSubtraction {
    /// Frame `p` lies in one of the pieces.
    pub open spec fn has_point(self, p: int) -> bool {
        match self {
            IntervalSubtraction::Empty => false,
            IntervalSubtraction::Single(a) => a.has_point(p),
            IntervalSubtraction::Dual(a, b) => a.has_point(p) || b.has_point(p),
        }
    }

    /// Every piece is well formed and holds at least one frame.
    pub open spec fn pieces_nonempty(self) -> bool {
        match self {
            IntervalSubtraction::Empty => true,
            IntervalSubtraction::Single(a) => a.start < a.end,
            IntervalSubtraction::Dual(a, b) => a.start < a.end && b.start < b.end && a.end <= b.start,
        }
    }
}

/// Where `intersection` gives an interval, it holds exactly the frames that
/// lie in both arguments.
pub proof fn lemma_intersection_is_common_part(a: Interval, b: Interval)
    requires
        a.wf(),
        b.wf(),
        a.spec_intersection(b) is Some,
    ensures
        a.spec_intersection(b).unwrap().wf(),
        forall|p: int|
            a.spec_intersection(b).unwrap().has_point(p) <==> (a.has_point(p) && b.has_point(p)),
{
}

/// Where `unify` gives an interval, it holds exactly the frames that lie in
/// either argument.
pub proof fn lemma_unify_is_union(a: Interval, b: Interval)
    requires
        a.wf(),
        b.wf(),
        a.spec_unify(b) is Some,
    ensures
        a.spec_unify(b).unwrap().wf(),
        forall|p: int| a.spec_unify(b).unwrap().has_point(p) <==> (a.has_point(p) || b.has_point(p)),
{
}

/// Where `other` lies within `a`, or reaches into it from the left,
/// `subtract` leaves exactly the frames of `a` that are not in `other`, as
/// nonempty ordered pieces.
pub proof fn lemma_subtract_is_difference(a: Interval, other: Interval)
    requires
        a.wf(),
        other.wf(),
        a.spec_contains(other) || a.spec_intersection(other) is Some,
    ensures
        a.spec_subtract(other).pieces_nonempty(),
        forall|p: int|
            a.spec_subtract(other).has_point(p) <==> (a.has_point(p) && !other.has_point(p)),
{
}

/// A list of frame intervals; the trigger tool keeps the unmarked, the
/// positive and the negative frames of a record in three of them.
#[derive(Clone, Debug)]
pub struct IntervalStorage {
    pub container: Vec<Interval>,
}

impl View for IntervalStorage {
    type V = Seq<Interval>;

    open spec fn view(&self) -> Seq<Interval> {
        self.container@
    }
}

/// Frame `p` lies in one of the intervals of `c`.
pub open spec fn covers(c: Seq<Interval>, p: int) -> bool {
    exists|k: int| 0 <= k < c.len() && #[trigger] c[k].has_point(p)
}

/// Every interval is well formed and ends before or where any later one starts.
pub open spec fn weakly_ordered(c: Seq<Interval>) -> bool {
    &&& forall|k: int| 0 <= k < c.len() ==> #[trigger] c[k].wf()
    &&& forall|i: int, j: int| 0 <= i < j < c.len() ==> #[trigger] c[i].end <= #[trigger] c[j].start
}

/// Weakly ordered, and no two intervals start at the same frame.
pub open spec fn ordered(c: Seq<Interval>) -> bool {
    &&& weakly_ordered(c)
    &&& forall|i: int, j: int| 0 <= i < j < c.len() ==> #[trigger] c[i].start < #[trigger] c[j].start
}

/// The bisection on interval starts that `find_close_index` runs over
/// `[lo, hi)` once its two boundary tests have not decided.
pub open spec fn bisect(c: Seq<Interval>, pos: int, lo: int, hi: int) -> int
    decreases hi - lo,
{
    let mid = lo + (hi - lo) / 2;
    if lo < mid && mid < hi {
        let item = c[mid].start as int;
        bisect(c, pos, if item <= pos { mid } else { lo }, if item >= pos { mid } else { hi })
    } else {
        mid
    }
}

/// What `find_close_index` returns: the index of the interval whose start is
/// the last one at or before `pos` (the first interval where `pos` precedes
/// every start), found by bisection.
pub open spec fn close_index(c: Seq<Interval>, pos: int) -> Option<int> {
    if c.len() == 0 {
        None
    } else if pos > c[c.len() - 1].start {
        Some(c.len() - 1)
    } else if pos < c[0].start {
        Some(0)
    } else {
        Some(bisect(c, pos, 0, c.len() as int))
    }
}

/// What `interval_in_point` returns: the index, among the interval that
/// `close_index` finds and its two neighbours, of the first one holding `pos`.
pub open spec fn point_lookup(c: Seq<Interval>, pos: int) -> Option<int> {
    match close_index(c, pos) {
        None => None,
        Some(p) => if c[p].has_point(pos) {
            Some(p)
        } else if p > 0 && c[p - 1].has_point(pos) {
            Some(p - 1)
        } else if p < c.len() - 1 && c[p + 1].has_point(pos) {
            Some(p + 1)
        } else {
            None
        },
    }
}

/// What `is_available` returns.
pub open spec fn spec_is_available(c: Seq<Interval>, iv: Interval) -> bool {
    match point_lookup(c, iv.start as int) {
        Some(k) => c[k].spec_contains(iv),
        None => false,
    }
}

/// The bisection stays within the range it searches.
proof fn lemma_bisect_in_range(c: Seq<Interval>, pos: int, lo: int, hi: int)
    requires
        0 <= lo <= hi,
    ensures
        lo <= bisect(c, pos, lo, hi) <= hi,
        lo < hi ==> bisect(c, pos, lo, hi) < hi,
    decreases hi - lo,
{
    let mid = lo + (hi - lo) / 2;
    if lo < mid && mid < hi {
        let item = c[mid].start as int;
        lemma_bisect_in_range(
            c,
            pos,
            if item <= pos { mid } else { lo },
            if item >= pos { mid } else { hi },
        );
    }
}

proof fn lemma_bisect_brackets(c: Seq<Interval>, pos: int, lo: int, hi: int)
    requires
        ordered(c),
        0 <= lo <= hi <= c.len(),
        lo < c.len(),
        c[lo].start <= pos,
        hi < c.len() ==> pos <= c[hi].start,
        lo == hi ==> c[lo].start == pos,
    ensures
        0 <= bisect(c, pos, lo, hi) < c.len(),
        c[bisect(c, pos, lo, hi)].start <= pos,
        bisect(c, pos, lo, hi) + 1 < c.len() ==> pos <= c[bisect(c, pos, lo, hi) + 1].start,
    decreases hi - lo,
{
    let mid = lo + (hi - lo) / 2;
    if lo < mid && mid < hi {
        let item = c[mid].start as int;
        lemma_bisect_brackets(
            c,
            pos,
            if item <= pos { mid } else { lo },
            if item >= pos { mid } else { hi },
        );
    } else if lo == hi && lo + 1 < c.len() {
        assert(c[lo].start < c[lo + 1].start);
    }
}

/// The starts of the intervals strictly increase.
pub open spec fn increasing_starts(c: Seq<Interval>) -> bool {
    forall|i: int, j: int| 0 <= i < j < c.len() ==> #[trigger] c[i].start < #[trigger] c[j].start
}

proof fn lemma_bisect_brackets_strict(c: Seq<Interval>, pos: int, lo: int, hi: int)
    requires
        increasing_starts(c),
        0 <= lo <= hi <= c.len(),
        lo < c.len(),
        c[lo].start <= pos,
        lo < hi < c.len() ==> pos < c[hi].start,
        lo == hi ==> c[lo].start == pos,
    ensures
        0 <= bisect(c, pos, lo, hi) < c.len(),
        c[bisect(c, pos, lo, hi)].start <= pos,
        bisect(c, pos, lo, hi) + 1 < c.len() ==> pos < c[bisect(c, pos, lo, hi) + 1].start,
    decreases hi - lo,
{
    let mid = lo + (hi - lo) / 2;
    if lo < mid && mid < hi {
        let item = c[mid].start as int;
        lemma_bisect_brackets_strict(
            c,
            pos,
            if item <= pos { mid } else { lo },
            if item >= pos { mid } else { hi },
        );
    } else if lo == hi && lo + 1 < c.len() {
        assert(c[lo].start < c[lo + 1].start);
    }
}

/// Where the starts strictly increase, for a frame from the first start to
/// the last one, `find_close_index` gives the interval whose start is the
/// last at or before the frame: it starts at or before the frame, and the
/// next one, if any, starts after it.
pub proof fn lemma_close_index_brackets(c: Seq<Interval>, pos: int)
    requires
        increasing_starts(c),
        c.len() > 0,
        c[0].start <= pos <= c.last().start,
    ensures
        close_index(c, pos) matches Some(k) && 0 <= k < c.len() && c[k].start <= pos && (k + 1 < c.len()
            ==> pos < c[k + 1].start),
{
    lemma_bisect_brackets_strict(c, pos, 0, c.len() as int);
}

/// In an ordered list, `interval_in_point` finds the interval that holds a
/// frame whenever one does, and only such an interval.
pub proof fn lemma_point_lookup_finds_holder(c: Seq<Interval>, pos: int)
    requires
        ordered(c),
    ensures
        point_lookup(c, pos) matches Some(k) ==> 0 <= k < c.len() && c[k].has_point(pos),
        point_lookup(c, pos) is None <==> !covers(c, pos),
        forall|k: int| 0 <= k < c.len() && c[k].has_point(pos) ==> point_lookup(c, pos) == Some(k),
{
    let n = c.len() as int;
    if n > 0 {
        if pos > c[n - 1].start {
        } else if pos < c[0].start {
        } else {
            lemma_bisect_brackets(c, pos, 0, n);
        }
        let p = close_index(c, pos).unwrap();
        assert forall|j: int| 0 <= j < n && c[j].has_point(pos) implies point_lookup(c, pos) == Some(j) by {
            if j < p {
                assert(c[j].end <= c[p].start);
            }
            if j > p + 1 {
                assert(c[p + 1].start < c[j].start);
            }
            if j == p + 1 && p > 0 {
                assert(c[p - 1].end <= c[p].start);
            }
            if pos < c[0].start {
                if j > 0 {
                    assert(c[0].start < c[j].start);
                }
            }
        }
        if point_lookup(c, pos) is Some {
            let k = point_lookup(c, pos).unwrap();
            assert(c[k].has_point(pos));
        }
    }
}

/// In an ordered list, an interval is available exactly when one stored
/// interval holds its first frame and contains it whole.
pub proof fn lemma_available_iff_within_one(c: Seq<Interval>, iv: Interval)
    requires
        ordered(c),
    ensures
        spec_is_available(c, iv) <==> exists|k: int|
            0 <= k < c.len() && #[trigger] c[k].has_point(iv.start as int) && c[k].spec_contains(iv),
{
    lemma_point_lookup_finds_holder(c, iv.start as int);
}

/// The insertion pass that `append_interval` runs from index `i` down:
/// while an interval starts before its predecessor, the two exchange their
/// start frames (their end frames stay where they are).
pub open spec fn bubble_starts(c: Seq<Interval>, i: int) -> Seq<Interval>
    decreases i,
{
    if 0 < i < c.len() && c[i].start < c[i - 1].start {
        bubble_starts(
            c.update(i, Interval { start: c[i - 1].start, end: c[i].end }).update(
                i - 1,
                Interval { start: c[i].start, end: c[i - 1].end },
            ),
            i - 1,
        )
    } else {
        c
    }
}

/// What `append_interval` leaves: `iv` pushed at the end, then the start-exchange pass.
pub open spec fn spec_append(c: Seq<Interval>, iv: Interval) -> Seq<Interval> {
    bubble_starts(c.push(iv), c.len() as int)
}

/// What `simplify` leaves when run from index `i`: empty intervals are
/// dropped and an interval that ends where the next starts is merged with
/// it; the last interval is never examined on its own. `None` where the
/// pass would meet an interval that ends before it starts.
pub open spec fn simplify_from(c: Seq<Interval>, i: int) -> Option<Seq<Interval>>
    decreases 2 * c.len() - i,
{
    if i < 0 || c.len() == 0 || i >= c.len() - 1 {
        Some(c)
    } else if !c[i].wf() {
        None
    } else if c[i].end == c[i].start {
        simplify_from(c.remove(i), i)
    } else if c[i].end == c[i + 1].start {
        if c[i].start <= c[i + 1].end {
            simplify_from(
                c.update(i, Interval { start: c[i].start, end: c[i + 1].end }).remove(i + 1),
                i,
            )
        } else {
            None
        }
    } else {
        simplify_from(c, i + 1)
    }
}

/// What `take_interval` leaves and returns.
pub open spec fn spec_take(c: Seq<Interval>, iv: Interval) -> (Seq<Interval>, bool) {
    match point_lookup(c, iv.start as int) {
        Some(k) => if c[k].spec_contains(iv) {
            match c[k].spec_subtract(iv) {
                IntervalSubtraction::Empty => (c.remove(k), true),
                IntervalSubtraction::Single(v) => (c.update(k, v), true),
                IntervalSubtraction::Dual(a, b) => (spec_append(c.update(k, a), b), true),
            }
        } else {
            (c, false)
        },
        None => (c, false),
    }
}

/// `insert_interval` would store `iv`: neither of its bounds lies in a stored interval.
pub open spec fn insert_accepts(c: Seq<Interval>, iv: Interval) -> bool {
    point_lookup(c, iv.start as int) is None && point_lookup(c, iv.end as int) is None
}

/// What `insert_interval` leaves and returns.
pub open spec fn spec_insert(c: Seq<Interval>, iv: Interval) -> (Seq<Interval>, bool) {
    if insert_accepts(c, iv) {
        (simplify_from(spec_append(c, iv), 0).unwrap(), true)
    } else {
        (c, false)
    }
}

/// Frame `p` lies in an interval of `c` other than the one at index `k`.
pub open spec fn covers_except(c: Seq<Interval>, k: int, p: int) -> bool {
    exists|j: int| 0 <= j < c.len() && j != k && #[trigger] c[j].has_point(p)
}

proof fn lemma_covers_remove(c: Seq<Interval>, k: int, p: int)
    requires
        0 <= k < c.len(),
    ensures
        covers(c.remove(k), p) <==> covers_except(c, k, p),
{
    let d = c.remove(k);
    if covers(d, p) {
        let j = choose|j: int| 0 <= j < d.len() && #[trigger] d[j].has_point(p);
        let jj = if j < k { j } else { j + 1 };
        assert(c[jj].has_point(p));
    }
    if covers_except(c, k, p) {
        let j = choose|j: int| 0 <= j < c.len() && j != k && #[trigger] c[j].has_point(p);
        let jj = if j < k { j } else { j - 1 };
        assert(d[jj].has_point(p));
    }
}

proof fn lemma_covers_update(c: Seq<Interval>, k: int, v: Interval, p: int)
    requires
        0 <= k < c.len(),
    ensures
        covers(c.update(k, v), p) <==> (v.has_point(p) || covers_except(c, k, p)),
{
    let d = c.update(k, v);
    if covers(d, p) {
        let j = choose|j: int| 0 <= j < d.len() && #[trigger] d[j].has_point(p);
        if j != k {
            assert(c[j].has_point(p));
        }
    }
    if v.has_point(p) {
        assert(d[k].has_point(p));
    }
    if covers_except(c, k, p) {
        let j = choose|j: int| 0 <= j < c.len() && j != k && #[trigger] c[j].has_point(p);
        assert(d[j].has_point(p));
    }
}

proof fn lemma_covers_push(c: Seq<Interval>, v: Interval, p: int)
    ensures
        covers(c.push(v), p) <==> (v.has_point(p) || covers(c, p)),
{
    let d = c.push(v);
    if covers(d, p) {
        let j = choose|j: int| 0 <= j < d.len() && #[trigger] d[j].has_point(p);
        if j < c.len() {
            assert(c[j].has_point(p));
        }
    }
    if v.has_point(p) {
        assert(d[c.len() as int].has_point(p));
    }
    if covers(c, p) {
        let j = choose|j: int| 0 <= j < c.len() && #[trigger] c[j].has_point(p);
        assert(d[j].has_point(p));
    }
}

proof fn lemma_covers_split(c: Seq<Interval>, k: int, p: int)
    requires
        0 <= k < c.len(),
    ensures
        covers(c, p) <==> (c[k].has_point(p) || covers_except(c, k, p)),
{
    if covers(c, p) {
        let j = choose|j: int| 0 <= j < c.len() && #[trigger] c[j].has_point(p);
        if j != k {
            assert(covers_except(c, k, p));
        }
    }
}

/// Every interval but the last holds a frame and ends strictly before the next one starts.
pub open spec fn separated(c: Seq<Interval>) -> bool {
    forall|j: int| 0 <= j < c.len() - 1 ==> #[trigger] sep_at(c, j)
}

/// The interval at index `j` holds a frame and ends strictly before the next one starts.
pub open spec fn sep_at(c: Seq<Interval>, j: int) -> bool {
    c[j].start < c[j].end && c[j].end < c[j + 1].start
}

proof fn lemma_separated_is_ordered(c: Seq<Interval>)
    requires
        weakly_ordered(c),
        separated(c),
    ensures
        ordered(c),
{
    assert forall|i: int, j: int| 0 <= i < j < c.len() implies #[trigger] c[i].start < #[trigger] c[j].start by {
        assert(sep_at(c, i));
        if i + 1 < j {
            assert(c[i + 1].end <= c[j].start);
            assert(c[i + 1].wf());
        }
    }
}

#[verifier::spinoff_prover]
#[verifier::rlimit(40)]
proof fn lemma_simplify_from(d: Seq<Interval>, i: int)
    requires
        0 <= i,
        weakly_ordered(d),
        forall|j: int| 0 <= j < i && j < d.len() - 1 ==> #[trigger] sep_at(d, j),
    ensures
        simplify_from(d, i) is Some,
        weakly_ordered(simplify_from(d, i).unwrap()),
        separated(simplify_from(d, i).unwrap()),
        forall|p: int| covers(simplify_from(d, i).unwrap(), p) <==> covers(d, p),
    decreases 2 * d.len() - i,
{
    if d.len() == 0 || i >= d.len() - 1 {
    } else if d[i].end == d[i].start {
        let e = d.remove(i);
        assert forall|j: int| 0 <= j < i && j < e.len() - 1 implies #[trigger] sep_at(e, j) by {
            assert(sep_at(d, j));
            assert(e[j] == d[j]);
            if j == i - 1 {
                assert(d[i].end <= d[i + 1].start);
                assert(e[j + 1] == d[i + 1]);
            } else {
                assert(e[j + 1] == d[j + 1]);
            }
        }
        lemma_simplify_from(e, i);
        assert forall|p: int| covers(e, p) <==> covers(d, p) by {
            lemma_covers_remove(d, i, p);
            lemma_covers_split(d, i, p);
        }
    } else if d[i].end == d[i + 1].start {
        let m = Interval { start: d[i].start, end: d[i + 1].end };
        let u = d.update(i, m);
        let e = u.remove(i + 1);
        assert(d[i + 1].wf());
        assert forall|a: int, b: int| 0 <= a < b < e.len() implies #[trigger] e[a].end <= #[trigger] e[b].start by {
            let aa = if a <= i { a } else { a + 1 };
            let bb = if b <= i { b } else { b + 1 };
            if a == i {
                assert(d[i + 1].end <= d[bb].start);
            } else if b == i {
                assert(d[aa].end <= d[i].start);
            } else {
                assert(d[aa].end <= d[bb].start);
            }
        }
        assert forall|k: int| 0 <= k < e.len() implies #[trigger] e[k].wf() by {
            let kk = if k <= i { k } else { k + 1 };
            assert(d[kk].wf());
        }
        assert forall|j: int| 0 <= j < i && j < e.len() - 1 implies #[trigger] sep_at(e, j) by {
            assert(sep_at(d, j));
            assert(e[j] == d[j]);
            if j + 1 == i {
                assert(e[j + 1] == m);
            } else {
                assert(e[j + 1] == d[j + 1]);
            }
        }
        lemma_simplify_from(e, i);
        assert forall|p: int| covers(e, p) <==> covers(d, p) by {
            lemma_covers_remove(u, i + 1, p);
            lemma_covers_split(u, i, p);
            lemma_covers_update(d, i, m, p);
            lemma_covers_split(d, i + 1, p);
            lemma_covers_split(d, i, p);
            if covers_except(u, i + 1, p) {
                let j = choose|j: int| 0 <= j < u.len() && j != i + 1 && #[trigger] u[j].has_point(p);
                if j != i {
                    assert(d[j].has_point(p));
                }
            }
            if covers_except(d, i, p) {
                let j = choose|j: int| 0 <= j < d.len() && j != i && #[trigger] d[j].has_point(p);
                if j != i + 1 {
                    assert(u[j].has_point(p));
                } else {
                    assert(u[i].has_point(p));
                }
            }
            if d[i].has_point(p) {
                assert(u[i].has_point(p));
            }
        }
    } else {
        assert(d[i].end <= d[i + 1].start);
        assert(sep_at(d, i));
        lemma_simplify_from(d, i + 1);
    }
}

/// Appending an interval that starts at or after the start of the last
/// stored interval puts it last and leaves the others as they were.
pub proof fn lemma_append_after_last(c: Seq<Interval>, iv: Interval)
    requires
        c.len() == 0 || c.last().start <= iv.start,
    ensures
        spec_append(c, iv) == c.push(iv),
{
}

/// Merging a weakly ordered list with `simplify` keeps exactly its frames,
/// drops its empty intervals (but the last), joins touching ones, and leaves
/// it ordered.
pub proof fn lemma_simplify_keeps_frames(d: Seq<Interval>)
    requires
        weakly_ordered(d),
    ensures
        simplify_from(d, 0) is Some,
        ordered(simplify_from(d, 0).unwrap()),
        separated(simplify_from(d, 0).unwrap()),
        forall|p: int| covers(simplify_from(d, 0).unwrap(), p) <==> covers(d, p),
{
    lemma_simplify_from(d, 0);
    lemma_separated_is_ordered(simplify_from(d, 0).unwrap());
}

proof fn lemma_ordered_remove(c: Seq<Interval>, k: int)
    requires
        ordered(c),
        0 <= k < c.len(),
    ensures
        ordered(c.remove(k)),
{
    let d = c.remove(k);
    assert forall|i: int, j: int| 0 <= i < j < d.len() implies #[trigger] d[i].end <= #[trigger] d[j].start
        && d[i].start < d[j].start by {
        let ii = if i < k { i } else { i + 1 };
        let jj = if j < k { j } else { j + 1 };
        assert(c[ii].end <= c[jj].start && c[ii].start < c[jj].start);
    }
    assert forall|i: int| 0 <= i < d.len() implies #[trigger] d[i].wf() by {
        let ii = if i < k { i } else { i + 1 };
        assert(c[ii].wf());
    }
}

proof fn lemma_ordered_update_within(c: Seq<Interval>, k: int, v: Interval)
    requires
        ordered(c),
        0 <= k < c.len(),
        c[k].spec_contains(v),
        v.start < v.end,
    ensures
        ordered(c.update(k, v)),
{
    let d = c.update(k, v);
    assert forall|i: int, j: int| 0 <= i < j < d.len() implies #[trigger] d[i].end <= #[trigger] d[j].start
        && d[i].start < d[j].start by {
        assert(c[i].end <= c[j].start && c[i].start < c[j].start);
        assert(c[i].wf() && c[j].wf());
    }
    assert forall|i: int| 0 <= i < d.len() implies #[trigger] d[i].wf() by {
        assert(c[i].wf());
    }
}

proof fn lemma_weakly_ordered_push(c: Seq<Interval>, v: Interval)
    requires
        weakly_ordered(c),
        v.wf(),
        forall|j: int| 0 <= j < c.len() ==> #[trigger] c[j].end <= v.start,
    ensures
        weakly_ordered(c.push(v)),
{
    let d = c.push(v);
    assert forall|i: int, j: int| 0 <= i < j < d.len() implies #[trigger] d[i].end <= #[trigger] d[j].start by {
        if j < c.len() {
            assert(c[i].end <= c[j].start);
        } else {
            assert(c[i].end <= v.start);
        }
    }
    assert forall|i: int| 0 <= i < d.len() implies #[trigger] d[i].wf() by {
        if i < c.len() {
            assert(c[i].wf());
        }
    }
}

proof fn lemma_ordered_push_after(c: Seq<Interval>, v: Interval)
    requires
        ordered(c),
        v.wf(),
        forall|j: int| 0 <= j < c.len() ==> #[trigger] c[j].end <= v.start && c[j].start < v.start,
    ensures
        ordered(c.push(v)),
{
    let d = c.push(v);
    lemma_weakly_ordered_push(c, v);
    assert forall|i: int, j: int| 0 <= i < j < d.len() implies #[trigger] d[i].start < #[trigger] d[j].start by {
        if j < c.len() {
            assert(c[i].start < c[j].start);
        } else {
            assert(c[i].end <= v.start);
            assert(c[i].start < v.start);
        }
    }
}

proof fn lemma_single_holder(c: Seq<Interval>, k: int, p: int)
    requires
        ordered(c),
        0 <= k < c.len(),
        c[k].has_point(p),
    ensures
        !covers_except(c, k, p),
{
    if covers_except(c, k, p) {
        let j = choose|j: int| 0 <= j < c.len() && j != k && #[trigger] c[j].has_point(p);
        if j < k {
            assert(c[j].end <= c[k].start);
        } else {
            assert(c[k].end <= c[j].start);
        }
    }
}

/// `take_interval` succeeds exactly when `is_available` holds beforehand,
/// and a refused take leaves the storage as it was.
pub proof fn lemma_take_reports_availability(c: Seq<Interval>, iv: Interval)
    ensures
        spec_take(c, iv).1 == spec_is_available(c, iv),
        !spec_take(c, iv).1 ==> spec_take(c, iv).0 == c,
{
}

/// Taking an available interval from an ordered storage removes exactly its
/// frames and keeps the storage ordered, unless the interval lies strictly
/// inside a stored interval that is not the last one.
pub proof fn lemma_take_removes_frames(c: Seq<Interval>, iv: Interval)
    requires
        ordered(c),
        iv.wf(),
        spec_is_available(c, iv),
        forall|k: int| 0 <= k < c.len() - 1 ==> !(#[trigger] c[k].start < iv.start && iv.end < c[k].end),
    ensures
        spec_take(c, iv).1,
        ordered(spec_take(c, iv).0),
        forall|p: int| covers(spec_take(c, iv).0, p) <==> (covers(c, p) && !iv.has_point(p)),
{
    lemma_point_lookup_finds_holder(c, iv.start as int);
    let k = point_lookup(c, iv.start as int).unwrap();
    let ck = c[k];
    assert(ck.wf());
    lemma_subtract_is_difference(ck, iv);
    let r = spec_take(c, iv).0;
    match ck.spec_subtract(iv) {
        IntervalSubtraction::Empty => {
            lemma_ordered_remove(c, k);
            assert forall|p: int| covers(r, p) <==> (covers(c, p) && !iv.has_point(p)) by {
                lemma_covers_remove(c, k, p);
                lemma_covers_split(c, k, p);
                if ck.has_point(p) {
                    lemma_single_holder(c, k, p);
                }
            }
        },
        IntervalSubtraction::Single(v) => {
            lemma_ordered_update_within(c, k, v);
            assert forall|p: int| covers(r, p) <==> (covers(c, p) && !iv.has_point(p)) by {
                lemma_covers_update(c, k, v, p);
                lemma_covers_split(c, k, p);
                if ck.has_point(p) {
                    lemma_single_holder(c, k, p);
                }
            }
        },
        IntervalSubtraction::Dual(a, b) => {
            let n = c.len() as int;
            assert(k == n - 1);
            let u = c.update(k, a);
            lemma_ordered_update_within(c, k, a);
            assert(u.push(b)[n].start >= u.push(b)[n - 1].start);
            assert(spec_append(u, b) == u.push(b));
            assert forall|j: int| 0 <= j < u.len() implies #[trigger] u[j].end <= b.start && u[j].start
                < b.start by {
                if j < k {
                    assert(c[j].end <= c[k].start);
                    assert(c[j].wf());
                }
            }
            lemma_ordered_push_after(u, b);
            assert forall|p: int| covers(r, p) <==> (covers(c, p) && !iv.has_point(p)) by {
                lemma_covers_push(u, b, p);
                lemma_covers_split(u, k, p);
                lemma_covers_update(c, k, a, p);
                lemma_covers_split(c, k, p);
                if ck.has_point(p) {
                    lemma_single_holder(c, k, p);
                }
                if covers_except(u, k, p) {
                    let j = choose|j: int| 0 <= j < u.len() && j != k && #[trigger] u[j].has_point(p);
                    assert(c[j].has_point(p));
                }
                if covers_except(c, k, p) {
                    let j = choose|j: int| 0 <= j < c.len() && j != k && #[trigger] c[j].has_point(p);
                    assert(u[j].has_point(p));
                }
            }
        },
    }
}

/// Storing, in an ordered storage, an interval that starts at or after the
/// end of every stored interval succeeds, adds exactly its frames and leaves
/// the storage ordered, with touching intervals merged.
pub proof fn lemma_insert_after_all(c: Seq<Interval>, iv: Interval)
    requires
        ordered(c),
        iv.wf(),
        forall|k: int| 0 <= k < c.len() ==> #[trigger] c[k].end <= iv.start,
    ensures
        insert_accepts(c, iv),
        simplify_from(spec_append(c, iv), 0) is Some,
        spec_insert(c, iv).1,
        ordered(spec_insert(c, iv).0),
        separated(spec_insert(c, iv).0),
        forall|p: int| covers(spec_insert(c, iv).0, p) <==> (covers(c, p) || iv.has_point(p)),
{
    assert(!covers(c, iv.start as int)) by {
        if covers(c, iv.start as int) {
            let j = choose|j: int| 0 <= j < c.len() && #[trigger] c[j].has_point(iv.start as int);
            assert(c[j].end <= iv.start);
        }
    }
    assert(!covers(c, iv.end as int)) by {
        if covers(c, iv.end as int) {
            let j = choose|j: int| 0 <= j < c.len() && #[trigger] c[j].has_point(iv.end as int);
            assert(c[j].end <= iv.start);
        }
    }
    lemma_point_lookup_finds_holder(c, iv.start as int);
    lemma_point_lookup_finds_holder(c, iv.end as int);
    let n = c.len() as int;
    let d = c.push(iv);
    if n > 0 {
        assert(c[n - 1].wf());
        assert(d[n].start >= d[n - 1].start);
    }
    assert(spec_append(c, iv) == d);
    lemma_weakly_ordered_push(c, iv);
    lemma_simplify_keeps_frames(d);
    let r = simplify_from(d, 0).unwrap();
    assert(spec_insert(c, iv).0 == r);
    assert forall|p: int| covers(r, p) <==> (covers(c, p) || iv.has_point(p)) by {
        lemma_covers_push(c, iv, p);
    }
}

/// `iv` is a maximal run of value `v` in `s`: nonempty, every entry inside
/// equals `v`, and the entries just outside (where there are any) differ.
pub open spec fn is_maximal_run(s: Seq<bool>, iv: Interval, v: bool) -> bool {
    &&& iv.start < iv.end <= s.len()
    &&& forall|t: int| iv.start <= t < iv.end ==> #[trigger] s[t] == v
    &&& (iv.start == 0 || s[iv.start - 1] != v)
    &&& (iv.end == s.len() || s[iv.end as int] != v)
}

/// `runs` lists, in increasing order, every maximal run of `v` in `s` among
/// its first `upto` entries, and each of its intervals is such a run.
#[verifier::opaque]
pub open spec fn runs_upto(s: Seq<bool>, v: bool, runs: Seq<Interval>, upto: int) -> bool {
    &&& forall|k: int| 0 <= k < runs.len() ==> is_maximal_run(s, #[trigger] runs[k], v) && runs[k].end
        <= upto
    &&& forall|i: int, j: int| 0 <= i < j < runs.len() ==> #[trigger] runs[i].end < #[trigger] runs[j].start
    &&& forall|p: int| 0 <= p < upto && #[trigger] s[p] == v ==> covers(runs, p)
}

/// `runs` lists, in increasing order, exactly the maximal runs of `v` in `s`.
pub open spec fn are_runs(s: Seq<bool>, v: bool, runs: Seq<Interval>) -> bool {
    runs_upto(s, v, runs, s.len() as int)
}

proof fn lemma_runs_push(s: Seq<bool>, v: bool, runs: Seq<Interval>, a: usize, b: usize)
    requires
        runs_upto(s, v, runs, a as int),
        a < b <= s.len(),
        forall|t: int| a <= t < b ==> #[trigger] s[t] == v,
        a == 0 || s[a - 1] != v,
        b == s.len() || s[b as int] != v,
    ensures
        runs_upto(s, v, runs.push(Interval { start: a, end: b }), b as int),
{
    reveal(runs_upto);
    let iv = Interval { start: a, end: b };
    let r = runs.push(iv);
    assert forall|i: int, j: int| 0 <= i < j < r.len() implies #[trigger] r[i].end < #[trigger] r[j].start by {
        if j < runs.len() {
            assert(runs[i].end < runs[j].start);
        } else {
            assert(runs[i].end <= a);
            if runs[i].end == a {
                assert(s[a - 1] == v);
            }
        }
    }
    assert forall|p: int| 0 <= p < b && #[trigger] s[p] == v implies covers(r, p) by {
        lemma_covers_push(runs, iv, p);
    }
    assert forall|k: int| 0 <= k < r.len() implies is_maximal_run(s, #[trigger] r[k], v) && r[k].end <= b by {
        if k < runs.len() {
            assert(is_maximal_run(s, runs[k], v));
        }
    }
}

proof fn lemma_runs_other_value(s: Seq<bool>, v: bool, runs: Seq<Interval>, a: int, b: int)
    requires
        runs_upto(s, v, runs, a),
        0 <= a <= b <= s.len(),
        forall|t: int| a <= t < b ==> #[trigger] s[t] != v,
    ensures
        runs_upto(s, v, runs, b),
{
    reveal(runs_upto);
}

/// Splits a nonempty sequence of trigger flags into its maximal runs of
/// `true` (first list) and of `false` (second list), each in increasing order.
pub fn split_intervals(trigger_result: &Vec<bool>) -> (r: (Vec<Interval>, Vec<Interval>))
    requires
        trigger_result@.len() > 0,
    ensures
        are_runs(trigger_result@, true, r.0@),
        are_runs(trigger_result@, false, r.1@),
{
    let ghost s = trigger_result@;
    let mut positives: Vec<Interval> = Vec::new();
    let mut negatives: Vec<Interval> = Vec::new();
    let mut interval_start: usize = 0;
    let mut current = trigger_result[0];
    let n = trigger_result.len();
    let mut i: usize = 0;
    proof {
        reveal(runs_upto);
    }
    while i < n
        invariant
            n == s.len(),
            s == trigger_result@,
            0 <= interval_start <= i <= n,
            interval_start < n,
            current == s[interval_start as int],
            i == 0 ==> interval_start == 0,
            forall|t: int| interval_start <= t < i ==> #[trigger] s[t] == current,
            interval_start == 0 || s[interval_start - 1] != current,
            runs_upto(s, true, positives@, interval_start as int),
            runs_upto(s, false, negatives@, interval_start as int),
        decreases n - i,
    {
        let x = trigger_result[i];
        if x != current {
            proof {
                if current {
                    lemma_runs_push(s, true, positives@, interval_start, i);
                    lemma_runs_other_value(s, false, negatives@, interval_start as int, i as int);
                } else {
                    lemma_runs_push(s, false, negatives@, interval_start, i);
                    lemma_runs_other_value(s, true, positives@, interval_start as int, i as int);
                }
            }
            if current {
                positives.push(Interval::new(interval_start, i));
            } else {
                negatives.push(Interval::new(interval_start, i));
            }
            current = x;
            interval_start = i;
        }
        i += 1;
    }
    proof {
        if current {
            lemma_runs_push(s, true, positives@, interval_start, n);
            lemma_runs_other_value(s, false, negatives@, interval_start as int, n as int);
        } else {
            lemma_runs_push(s, false, negatives@, interval_start, n);
            lemma_runs_other_value(s, true, positives@, interval_start as int, n as int);
        }
    }
    if current {
        positives.push(Interval::new(interval_start, n));
    } else {
        negatives.push(Interval::new(interval_start, n));
    }
    (positives, negatives)
}

impl IntervalStorage {
    /// A storage that holds the single interval `[0, length)`.
    pub fn new_full(length: usize) -> (r: Self)
        ensures
            r@ == seq![Interval { start: 0, end: length }],
    {
        IntervalStorage { container: vec![Interval::new(0, length)] }
    }

    /// A storage that holds nothing.
    pub fn new_empty() -> (r: Self)
        ensures
            r@ == Seq::<Interval>::empty(),
    {
        IntervalStorage { container: Vec::new() }
    }

    /// The first stored interval, if any.
    pub fn get_first_available(&self) -> (r: Option<Interval>)
        ensures
            r == (if self@.len() == 0 { None } else { Some(self@[0]) }),
    {
        if self.container.len() == 0 {
            None
        } else {
            Some(self.container[0])
        }
    }

    /// The place that a bisection on the stored starts gives for `pos`: the
    /// last one past the last start, the first one before the first start,
    /// none in an empty storage; in an ordered storage, the interval whose
    /// start is the last at or before `pos` (see `lemma_close_index_brackets`).
    pub fn find_close_index(&self, pos: usize) -> (r: Option<usize>)
        ensures
            r is None <==> close_index(self@, pos as int) is None,
            r matches Some(x) ==> close_index(self@, pos as int) == Some(x as int) && x < self@.len(),
            increasing_starts(self@) && self@.len() > 0 && self@[0].start <= pos <= self@.last().start ==> (r matches Some(
                x,
            ) && self@[x as int].start <= pos && (x + 1 < self@.len() ==> pos < self@[x + 1].start)),
    {
        proof {
            if increasing_starts(self@) && self@.len() > 0 && self@[0].start <= pos <= self@.last().start {
                lemma_close_index_brackets(self@, pos as int);
            }
        }
        if self.container.len() == 0 {
            return None;
        }
        let mut start: usize = 0;
        let mut end: usize = self.container.len();
        let mut middle: usize = start + (end - start) / 2;
        if pos > self.container[end - 1].start {
            return Some(end - 1);
        }
        if pos < self.container[0].start {
            return Some(0);
        }
        while start != middle
            invariant
                0 <= start <= end <= self@.len(),
                middle == start + (end - start) / 2,
                bisect(self@, pos as int, start as int, end as int) == bisect(
                    self@,
                    pos as int,
                    0,
                    self@.len() as int,
                ),
            decreases end - start,
        {
            let item = self.container[middle].start;
            if item <= pos {
                start = middle;
            }
            if item >= pos {
                end = middle;
            }
            middle = start + (end - start) / 2;
        }
        proof {
            lemma_bisect_in_range(self@, pos as int, 0, self@.len() as int);
        }
        Some(middle)
    }

    /// The stored interval that holds frame `pos`, with its place, looked for
    /// at the place `find_close_index` gives and at its two neighbours.
    pub fn interval_in_point(&self, pos: usize) -> (r: Option<(Interval, usize)>)
        ensures
            r is None <==> point_lookup(self@, pos as int) is None,
            r matches Some((iv, k)) ==> point_lookup(self@, pos as int) == Some(k as int) && k
                < self@.len() && iv == self@[k as int],
            ordered(self@) ==> (r is None <==> !covers(self@, pos as int)),
            ordered(self@) ==> (r matches Some((iv, k)) ==> iv.has_point(pos as int)),
    {
        proof {
            if ordered(self@) {
                lemma_point_lookup_finds_holder(self@, pos as int);
            }
        }
        if let Some(ptr) = self.find_close_index(pos) {
            if self.container[ptr].contains_point(pos) {
                return Some((self.container[ptr], ptr));
            }
            if ptr > 0 {
                if self.container[ptr - 1].contains_point(pos) {
                    return Some((self.container[ptr - 1], ptr - 1));
                }
            }
            if ptr < self.container.len() - 1 {
                if self.container[ptr + 1].contains_point(pos) {
                    return Some((self.container[ptr + 1], ptr + 1));
                }
            }
            None
        } else {
            None
        }
    }

    /// Adds `interval` last and moves its start down among the stored
    /// starts until they increase again (each exchange swaps two starts and
    /// leaves the ends in place).
    pub fn append_interval(&mut self, interval: Interval)
        ensures
            final(self)@ == spec_append(old(self)@, interval),
            old(self)@.len() == 0 || old(self)@.last().start <= interval.start ==> final(self)@ == old(self)@.push(
                interval,
            ),
    {
        proof {
            if old(self)@.len() == 0 || old(self)@.last().start <= interval.start {
                lemma_append_after_last(old(self)@, interval);
            }
        }
        self.container.push(interval);
        let mut i = self.container.len() - 1;
        let mut done = false;
        while i > 0 && !done
            invariant
                i < self@.len(),
                self@.len() == old(self)@.len() + 1,
                done ==> bubble_starts(self@, i as int) == self@,
                bubble_starts(self@, i as int) == spec_append(old(self)@, interval),
            decreases 2 * i + (if done { 0int } else { 1int }),
        {
            let a = self.container[i];
            let b = self.container[i - 1];
            if a.start < b.start {
                self.container.set(i, Interval { start: b.start, end: a.end });
                self.container.set(i - 1, Interval { start: a.start, end: b.end });
                i -= 1;
            } else {
                done = true;
            }
        }
    }

    /// Drops the empty intervals (but the last) and merges each interval
    /// with a next one that starts where it ends; see `lemma_simplify_keeps_frames`.
    pub fn simplify(&mut self)
        requires
            simplify_from(old(self)@, 0) is Some,
        ensures
            final(self)@ == simplify_from(old(self)@, 0).unwrap(),
            weakly_ordered(old(self)@) ==> ordered(final(self)@) && separated(final(self)@) && forall|p: int|
                #[trigger] covers(final(self)@, p) <==> covers(old(self)@, p),
    {
        proof {
            if weakly_ordered(old(self)@) {
                lemma_simplify_keeps_frames(old(self)@);
            }
        }
        if self.container.is_empty() {
            return;
        }
        let mut i: usize = 0;
        while i < self.container.len() - 1
            invariant
                self@.len() >= 1,
                simplify_from(self@, i as int) == simplify_from(old(self)@, 0),
                simplify_from(self@, i as int) is Some,
            decreases 2 * self@.len() - i,
        {
            if self.container[i].length() == 0 {
                self.container.remove(i);
            } else if self.container[i].end == self.container[i + 1].start {
                let merged = Interval::new(self.container[i].start, self.container[i + 1].end);
                self.container.set(i, merged);
                self.container.remove(i + 1);
            } else {
                i += 1;
            }
        }
    }

    /// Cuts `interval` out of the stored interval that holds its first frame,
    /// if that one contains it whole; reports whether it did.
    pub fn take_interval(&mut self, interval: Interval) -> (r: bool)
        ensures
            final(self)@ == spec_take(old(self)@, interval).0,
            r == spec_take(old(self)@, interval).1,
            r == spec_is_available(old(self)@, interval),
            !r ==> final(self)@ == old(self)@,
            ordered(old(self)@) && interval.wf() && r && (forall|k: int|
                0 <= k < old(self)@.len() - 1 ==> !(#[trigger] old(self)@[k].start < interval.start && interval.end
                    < old(self)@[k].end)) ==> ordered(final(self)@) && forall|p: int|
                #[trigger] covers(final(self)@, p) <==> (covers(old(self)@, p) && !interval.has_point(p)),
    {
        proof {
            lemma_take_reports_availability(self@, interval);
            if ordered(self@) && interval.wf() && spec_is_available(self@, interval) && (forall|k: int|
                0 <= k < self@.len() - 1 ==> !(#[trigger] self@[k].start < interval.start && interval.end
                    < self@[k].end)) {
                lemma_take_removes_frames(self@, interval);
            }
        }
        if let Some((closest, i)) = self.interval_in_point(interval.start) {
            if closest.contains(&interval) {
                match closest.subtract(&interval) {
                    IntervalSubtraction::Empty => {
                        self.container.remove(i);
                        return true;
                    },
                    IntervalSubtraction::Single(v) => {
                        self.container.set(i, v);
                        return true;
                    },
                    IntervalSubtraction::Dual(a, b) => {
                        self.container.set(i, a);
                        self.append_interval(b);
                        return true;
                    },
                }
            }
        }
        false
    }

    /// Stores `interval` when neither of its bounds lies in a stored
    /// interval, then merges what touches; reports whether it did.
    pub fn insert_interval(&mut self, interval: Interval) -> (r: bool)
        requires
            insert_accepts(old(self)@, interval) ==> simplify_from(
                spec_append(old(self)@, interval),
                0,
            ) is Some,
        ensures
            final(self)@ == spec_insert(old(self)@, interval).0,
            r == spec_insert(old(self)@, interval).1,
            !r ==> final(self)@ == old(self)@,
            ordered(old(self)@) ==> (r <==> !covers(old(self)@, interval.start as int) && !covers(
                old(self)@,
                interval.end as int,
            )),
            ordered(old(self)@) && interval.wf() && (forall|k: int|
                0 <= k < old(self)@.len() ==> #[trigger] old(self)@[k].end <= interval.start) ==> r && ordered(
                final(self)@,
            ) && separated(final(self)@) && forall|p: int|
                #[trigger] covers(final(self)@, p) <==> (covers(old(self)@, p) || interval.has_point(p)),
    {
        proof {
            if ordered(self@) {
                lemma_point_lookup_finds_holder(self@, interval.start as int);
                lemma_point_lookup_finds_holder(self@, interval.end as int);
                if interval.wf() && (forall|k: int| 0 <= k < self@.len() ==> #[trigger] self@[k].end <= interval.start) {
                    lemma_insert_after_all(self@, interval);
                }
            }
        }
        if let Some(_) = self.interval_in_point(interval.start) {
            return false;
        }
        if let Some(_) = self.interval_in_point(interval.end) {
            return false;
        } else {
            self.append_interval(interval);
            self.simplify();
            return true;
        }
    }

    /// A storage of `intervals` with empty intervals dropped and touching
    /// ones merged, as `simplify` leaves them; none where that pass would
    /// meet an interval that ends before it starts.
    pub fn from_intervals(intervals: Vec<Interval>) -> (r: Option<Self>)
        ensures
            match simplify_from(intervals@, 0) {
                Some(c) => r matches Some(st) && st@ == c,
                None => r is None,
            },
    {
        let mut probe = IntervalStorage { container: intervals };
        let mut check = probe.copied();
        if !check.simplify_succeeds() {
            return None;
        }
        probe.simplify();
        Some(probe)
    }

    /// A copy of the storage.
    fn copied(&self) -> (r: Self)
        ensures
            r@ == self@,
    {
        let mut container: Vec<Interval> = Vec::new();
        let mut i: usize = 0;
        while i < self.container.len()
            invariant
                i <= self.container.len(),
                container@ == self@.subrange(0, i as int),
            decreases self.container.len() - i,
        {
            container.push(self.container[i]);
            i = i + 1;
            assert(container@ =~= self@.subrange(0, i as int));
        }
        assert(self@.subrange(0, self@.len() as int) =~= self@);
        IntervalStorage { container }
    }

    /// Whether `simplify` would run to its end on this storage: it runs the
    /// same pass on the storage and stops where the pass would meet an
    /// interval that ends before it starts.
    fn simplify_succeeds(&mut self) -> (r: bool)
        ensures
            r == simplify_from(old(self)@, 0) is Some,
    {
        if self.container.is_empty() {
            return true;
        }
        let mut i: usize = 0;
        while i < self.container.len() - 1
            invariant
                self@.len() >= 1,
                simplify_from(self@, i as int) == simplify_from(old(self)@, 0),
            decreases 2 * self@.len() - i,
        {
            let a = self.container[i];
            if a.end < a.start {
                return false;
            }
            if a.end == a.start {
                self.container.remove(i);
            } else if a.end == self.container[i + 1].start {
                if a.start > self.container[i + 1].end {
                    return false;
                }
                let merged = Interval::new(a.start, self.container[i + 1].end);
                self.container.set(i, merged);
                self.container.remove(i + 1);
            } else {
                i += 1;
            }
        }
        true
    }

    /// Whether `insert_interval` can run on `interval`: it refuses the
    /// interval, or the merge pass after storing it runs to its end.
    pub fn insert_is_defined(&self, interval: Interval) -> (r: bool)
        ensures
            r == (insert_accepts(self@, interval) ==> simplify_from(spec_append(self@, interval), 0) is Some),
    {
        if let Some(_) = self.interval_in_point(interval.start) {
            return true;
        }
        if let Some(_) = self.interval_in_point(interval.end) {
            return true;
        }
        let mut c = self.copied();
        c.append_interval(interval);
        c.simplify_succeeds()
    }

    /// The interval `interval` lies whole within the stored interval that
    /// holds its first frame.
    pub fn is_available(&self, interval: Interval) -> (r: bool)
        ensures
            r == spec_is_available(self@, interval),
    {
        if let Some((closest, _i)) = self.interval_in_point(interval.start) {
            return closest.contains(&interval);
        }
        false
    }
}

} // verus!
