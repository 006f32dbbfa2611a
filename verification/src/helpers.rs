//! Comparison and shifting of ranges, and the map from offsets to the shifts that edits cause.
use core::cmp::Ordering;
use core::ops::Range;
use crate::emit::relocation::encode::{uleb, variable_u32};
use vstd::prelude::*;

verus! {

/// A value that marks a place on a line.
pub trait Position: Copy {
    /// The place.
    spec fn pos(self) -> int;

    fn at_or_before(self, other: Self) -> (r: bool)
        ensures
            r == (self.pos() <= other.pos()),
    ;
}

impl Position for i32 {
    open spec fn pos(self) -> int {
        self as int
    }

    fn at_or_before(self, other: Self) -> (r: bool) {
        self <= other
    }
}

impl Position for u32 {
    open spec fn pos(self) -> int {
        self as int
    }

    fn at_or_before(self, other: Self) -> (r: bool) {
        self <= other
    }
}

impl Position for usize {
    open spec fn pos(self) -> int {
        self as int
    }

    fn at_or_before(self, other: Self) -> (r: bool) {
        self <= other
    }
}

/// How one range lies relative to another.
#[derive(PartialEq, Eq, Debug, Clone, Copy, PartialOrd, Ord, Hash, Structural)]
pub enum RangeComp {
    /// This range is fully left to the other range.
    Left,
    /// This range is equal to the other range.
    Equal,
    /// This range fully overlaps the other range.
    Overlap,
    /// This range is within the other range.
    Within,
    /// This range only partially intersects the other range.
    NonComparable,
    /// This range is fully right to the other range.
    Right,
}

impl RangeComp {
    /// Converts the relation to a partial order, useful for sorting ranges; a range comes before
    /// the ranges that it contains.
    pub fn as_partial_ordering(&self) -> (r: Option<Ordering>)
        ensures
            r == match *self {
                RangeComp::Left | RangeComp::Overlap => Some(Ordering::Less),
                RangeComp::Equal => Some(Ordering::Equal),
                RangeComp::Right | RangeComp::Within => Some(Ordering::Greater),
                RangeComp::NonComparable => None,
            },
    {
        match self {
            RangeComp::Left | RangeComp::Overlap => Some(Ordering::Less),
            RangeComp::Equal => Some(Ordering::Equal),
            RangeComp::Right | RangeComp::Within => Some(Ordering::Greater),
            RangeComp::NonComparable => None,
        }
    }

    /// Whether the two ranges have a place in common or one lies in the other.
    pub fn is_intersecting(&self) -> (r: bool)
        ensures
            r == !(*self is Left || *self is Right),
    {
        match self {
            RangeComp::Left | RangeComp::Right => false,
            _ => true,
        }
    }
}

/// The relation of the range `a..b` to the range `c..d`. Containment is decided before order, so
/// that an empty range on the border of another range lies within it.
pub open spec fn range_relation(a: int, b: int, c: int, d: int) -> RangeComp {
    if a == c && b == d {
        RangeComp::Equal
    } else if a <= c && d <= b {
        RangeComp::Overlap
    } else if c <= a && b <= d {
        RangeComp::Within
    } else if d <= a {
        RangeComp::Right
    } else if b <= c {
        RangeComp::Left
    } else {
        RangeComp::NonComparable
    }
}

/// Compares two ranges and returns their relationship.
pub fn cmp_range<V: Position>(some: &Range<V>, other: &Range<V>) -> (r: RangeComp)
    ensures
        r == range_relation(some.start.pos(), some.end.pos(), other.start.pos(), other.end.pos()),
{
    let starts_before: bool = some.start.at_or_before(other.start);
    let starts_after: bool = other.start.at_or_before(some.start);
    let ends_before: bool = some.end.at_or_before(other.end);
    let ends_after: bool = other.end.at_or_before(some.end);
    if starts_before && starts_after && ends_before && ends_after {
        RangeComp::Equal
    } else if starts_before && ends_after {
        RangeComp::Overlap
    } else if starts_after && ends_before {
        RangeComp::Within
    } else if other.end.at_or_before(some.start) {
        RangeComp::Right
    } else if some.end.at_or_before(other.start) {
        RangeComp::Left
    } else {
        RangeComp::NonComparable
    }
}

/// The relation with its two sides exchanged.
pub open spec fn mirrored(r: RangeComp) -> RangeComp {
    match r {
        RangeComp::Left => RangeComp::Right,
        RangeComp::Right => RangeComp::Left,
        RangeComp::Overlap => RangeComp::Within,
        RangeComp::Within => RangeComp::Overlap,
        RangeComp::Equal => RangeComp::Equal,
        RangeComp::NonComparable => RangeComp::NonComparable,
    }
}

/// Comparing two ranges in the other order mirrors the relation.
pub proof fn lemma_range_relation_mirrored(a: int, b: int, c: int, d: int)
    requires
        a <= b,
        c <= d,
    ensures
        range_relation(c, d, a, b) == mirrored(range_relation(a, b, c, d)),
{
}

/// Whether the place `x` is one of `a..b`.
pub open spec fn in_range(x: int, a: int, b: int) -> bool {
    a <= x < b
}

/// Two non-empty ranges have a place in common exactly when neither is left or right of the other.
pub proof fn lemma_intersecting_ranges(a: int, b: int, c: int, d: int)
    requires
        a < b,
        c < d,
    ensures
        (exists|x: int| in_range(x, a, b) && in_range(x, c, d)) <==> !(range_relation(a, b, c, d) is Left
            || range_relation(a, b, c, d) is Right),
{
    let x = if a <= c {
        c
    } else {
        a
    };
    if !(range_relation(a, b, c, d) is Left || range_relation(a, b, c, d) is Right) {
        assert(in_range(x, a, b) && in_range(x, c, d));
    }
}

/// Moving of a range along its line.
pub trait RangeExt: Sized {
    /// Whether the range stays on the line when it is moved by a distance, to the left if the
    /// distance is negative.
    spec fn can_move(&self, distance: int) -> bool;

    /// Whether `other` is this range moved by a distance.
    spec fn is_moved(&self, other: &Self, distance: int) -> bool;

    fn shift_left(&self, offset: usize) -> (r: Self)
        requires
            self.can_move(-offset),
        ensures
            self.is_moved(&r, -offset),
    ;

    fn shift_right(&self, offset: usize) -> (r: Self)
        requires
            self.can_move(offset as int),
        ensures
            self.is_moved(&r, offset as int),
    ;

    /// Moves right by a non-negative and left by a negative amount.
    fn shift(&self, offset: isize) -> (r: Self)
        requires
            isize::MIN < offset,
            self.can_move(offset as int),
        ensures
            self.is_moved(&r, offset as int),
    {
        if offset >= 0 {
            self.shift_right(offset as usize)
        } else {
            self.shift_left((-offset) as usize)
        }
    }
}

impl RangeExt for Range<usize> {
    open spec fn can_move(&self, distance: int) -> bool {
        0 <= self.start + distance <= usize::MAX && 0 <= self.end + distance <= usize::MAX
    }

    open spec fn is_moved(&self, other: &Self, distance: int) -> bool {
        other.start == self.start + distance && other.end == self.end + distance
    }

    fn shift_left(&self, offset: usize) -> (r: Self) {
        Range { start: self.start - offset, end: self.end - offset }
    }

    fn shift_right(&self, offset: usize) -> (r: Self) {
        Range { start: self.start + offset, end: self.end + offset }
    }
}

/// An offset that bytes can be inserted at or removed from.
pub trait ShiftOffset: Position {
    /// The largest offset.
    spec fn max_pos() -> int;

    proof fn lemma_pos_bounds(self)
        ensures
            0 <= self.pos() <= Self::max_pos(),
    ;

    /// Whether the offset is one of the `len` places that start with `start`.
    fn within(self, start: Self, len: u32) -> (r: bool)
        ensures
            r == (start.pos() <= self.pos() < start.pos() + len),
    ;

    fn forward(self, by: u32) -> (r: Self)
        requires
            self.pos() + by <= Self::max_pos(),
        ensures
            r.pos() == self.pos() + by,
    ;

    fn backward(self, by: u32) -> (r: Self)
        requires
            by <= self.pos(),
        ensures
            r.pos() == self.pos() - by,
    ;
}

impl ShiftOffset for u32 {
    open spec fn max_pos() -> int {
        u32::MAX as int
    }

    proof fn lemma_pos_bounds(self) {
    }

    fn within(self, start: Self, len: u32) -> (r: bool) {
        start <= self && self - start < len
    }

    fn forward(self, by: u32) -> (r: Self) {
        self + by
    }

    fn backward(self, by: u32) -> (r: Self) {
        self - by
    }
}

/// An edit: `shift` places are inserted at the offset `at`, or, where `shift` is negative, `-shift`
/// places are removed from there on.
#[derive(Debug, Eq, PartialEq, Clone, Copy, PartialOrd, Ord)]
pub struct ShiftPoint<Offset> {
    pub at: Offset,
    pub shift: i32,
}

impl<Offset> ShiftPoint<Offset> {
    pub fn remove(at: Offset, shift: u32) -> (r: Self)
        requires
            shift <= i32::MAX,
        ensures
            r.at == at,
            r.shift == -shift,
    {
        ShiftPoint { at, shift: -(shift as i32) }
    }

    pub fn insert(at: Offset, shift: u32) -> (r: Self)
        requires
            shift <= i32::MAX,
        ensures
            r.at == at,
            r.shift == shift,
    {
        ShiftPoint { at, shift: shift as i32 }
    }
}

impl<Offset: Position> ShiftPoint<Offset> {
    /// The edit as a pair of its offset and its shift.
    pub open spec fn edit(self) -> (int, int) {
        (self.at.pos(), self.shift as int)
    }
}

/// Sum of the shifts of all edits.
pub open spec fn total_shift(edits: Seq<(int, int)>) -> int
    decreases edits.len(),
{
    if edits.len() == 0 {
        0
    } else {
        total_shift(edits.drop_last()) + edits.last().1
    }
}

/// Sum of the shifts of the edits at or before `offset`.
pub open spec fn accumulated_shift(edits: Seq<(int, int)>, offset: int) -> int
    decreases edits.len(),
{
    if edits.len() == 0 {
        0
    } else {
        accumulated_shift(edits.drop_last(), offset) + if edits.last().0 <= offset {
            edits.last().1
        } else {
            0
        }
    }
}

/// Whether the edit removes what is at `offset`.
pub open spec fn removes(edit: (int, int), offset: int) -> bool {
    edit.0 <= offset < edit.0 - edit.1
}

/// The shift of what is at `offset`, or nothing where it is removed.
pub open spec fn shift_at(edits: Seq<(int, int)>, offset: int) -> Option<int> {
    if exists|i: int| 0 <= i < edits.len() && removes(#[trigger] edits[i], offset) {
        None
    } else {
        Some(accumulated_shift(edits, offset))
    }
}

/// The edits with one more, behind those at or before its offset.
pub open spec fn with_edit(edits: Seq<(int, int)>, edit: (int, int)) -> Seq<(int, int)>
    decreases edits.len(),
{
    if edits.len() > 0 && edit.0 < edits.last().0 {
        with_edit(edits.drop_last(), edit).push(edits.last())
    } else {
        edits.push(edit)
    }
}

/// The edits in order of their offsets.
pub open spec fn ordered_edits(edits: Seq<(int, int)>) -> Seq<(int, int)>
    decreases edits.len(),
{
    if edits.len() == 0 {
        Seq::empty()
    } else {
        with_edit(ordered_edits(edits.drop_last()), edits.last())
    }
}

/// Whether the edits are in order, no two have the same offset, and none lies in what another
/// removes.
pub open spec fn apart_edits(edits: Seq<(int, int)>) -> bool {
    forall|i: int, j: int|
        #![trigger edits[i], edits[j]]
        0 <= i < j < edits.len() ==> edits[i].0 < edits[j].0 && edits[i].0 - edits[i].1
            <= edits[j].0
}

/// Whether all shifts, their opposites and all sums of shifts are representable.
pub open spec fn sums_fit(edits: Seq<(int, int)>) -> bool {
    &&& forall|i: int| 0 <= i < edits.len() ==> i32::MIN < (#[trigger] edits[i]).1 <= i32::MAX
    &&& forall|i: int|
        0 <= i <= edits.len() ==> i32::MIN <= #[trigger] total_shift(edits.take(i)) <= i32::MAX
}

/// Whether the edits can be made together.
pub open spec fn valid_edits(edits: Seq<(int, int)>) -> bool {
    apart_edits(edits) && sums_fit(edits)
}

#[derive(Debug, Eq, PartialEq, Clone, Copy, PartialOrd, Ord)]
struct Point<Offset> {
    at: Offset,
    // shift of everything from here to the next point
    shift: i32,
    // number of places that are removed from here on
    removed_size: Option<u32>,
}

/// The shift that the point with number `i` adds to the ones before it.
spec fn own_shift<Offset>(points: Seq<Point<Offset>>, i: int) -> int {
    if i == 0 {
        points[0].shift as int
    } else {
        points[i].shift - points[i - 1].shift
    }
}

spec fn removed_by(shift: int) -> Option<u32> {
    if shift < 0 {
        Some((-shift) as u32)
    } else {
        None
    }
}

/// Where everything moves to when edits are made at several offsets.
#[derive(Debug, Eq, PartialEq, Clone, PartialOrd, Ord)]
pub struct ShiftMap<Offset> {
    points: Vec<Point<Offset>>,
}

impl<Offset: Position> View for ShiftMap<Offset> {
    type V = Seq<(int, int)>;

    /// The edits in order of their offsets.
    closed spec fn view(&self) -> Seq<(int, int)> {
        Seq::new(
            self.points@.len(),
            |i: int| (self.points@[i].at.pos(), own_shift(self.points@, i)),
        )
    }
}

impl<Offset: Position> ShiftMap<Offset> {
    pub closed spec fn wf(&self) -> bool {
        &&& valid_edits(self@)
        &&& forall|i: int|
            0 <= i < self.points@.len() ==> (#[trigger] self.points@[i]).removed_size == removed_by(
                own_shift(self.points@, i),
            )
    }

    pub fn new() -> (r: Self)
        ensures
            r.wf(),
            r@ == Seq::<(int, int)>::empty(),
    {
        let r = ShiftMap { points: Vec::new() };
        assert(r@ =~= Seq::<(int, int)>::empty());
        r
    }

    /// The stored shift of a point is the sum of the shifts up to it.
    proof fn lemma_stored_shift(&self, i: int)
        requires
            0 <= i < self.points@.len(),
        ensures
            self.points@[i].shift == total_shift(self@.take(i + 1)),
        decreases i,
    {
        assert(self@.take(i + 1).drop_last() =~= self@.take(i));
        assert(self@.take(i + 1).last() == self@[i]);
        if i > 0 {
            self.lemma_stored_shift(i - 1);
        } else {
            assert(total_shift(self@.take(0)) == 0);
        }
    }

    /// Number of points at or before `offset`.
    fn rank(&self, offset: Offset) -> (r: usize)
        requires
            self.wf(),
        ensures
            r <= self@.len(),
            forall|i: int| 0 <= i < r ==> (#[trigger] self@[i]).0 <= offset.pos(),
            forall|i: int| r <= i < self@.len() ==> (#[trigger] self@[i]).0 > offset.pos(),
    {
        let mut low: usize = 0;
        let mut high: usize = self.points.len();
        while low < high
            invariant
                self.wf(),
                low <= high <= self@.len(),
                forall|i: int| 0 <= i < low ==> (#[trigger] self@[i]).0 <= offset.pos(),
                forall|i: int| high <= i < self@.len() ==> (#[trigger] self@[i]).0 > offset.pos(),
            decreases high - low,
        {
            let middle: usize = low + (high - low) / 2;
            assert(self@[middle as int].0 == self.points@[middle as int].at.pos());
            if self.points[middle].at.at_or_before(offset) {
                low = middle + 1;
            } else {
                high = middle;
            }
        }
        low
    }
}

/// Only the edits before the place of `offset` count for its shift.
proof fn lemma_accumulated_is_prefix(edits: Seq<(int, int)>, offset: int, rank: int)
    requires
        0 <= rank <= edits.len(),
        forall|i: int| 0 <= i < rank ==> (#[trigger] edits[i]).0 <= offset,
        forall|i: int| rank <= i < edits.len() ==> (#[trigger] edits[i]).0 > offset,
    ensures
        accumulated_shift(edits, offset) == total_shift(edits.take(rank)),
    decreases edits.len(),
{
    if edits.len() == 0 {
        assert(edits.take(rank) =~= edits);
    } else if rank == edits.len() {
        assert(edits.take(rank) =~= edits);
        let init = edits.drop_last();
        lemma_accumulated_is_prefix(init, offset, rank - 1);
        assert(init.take(rank - 1) =~= init);
    } else {
        let init = edits.drop_last();
        lemma_accumulated_is_prefix(init, offset, rank);
        assert(init.take(rank) =~= edits.take(rank));
    }
}

/// Only the last edit at or before `offset` can remove it.
proof fn lemma_removing_edit(edits: Seq<(int, int)>, offset: int, rank: int)
    requires
        valid_edits(edits),
        0 <= rank <= edits.len(),
        forall|i: int| 0 <= i < rank ==> (#[trigger] edits[i]).0 <= offset,
        forall|i: int| rank <= i < edits.len() ==> (#[trigger] edits[i]).0 > offset,
    ensures
        (exists|i: int| 0 <= i < edits.len() && removes(#[trigger] edits[i], offset)) <==> rank > 0
            && removes(edits[rank - 1], offset),
{
    assert forall|i: int|
        0 <= i < edits.len() && removes(#[trigger] edits[i], offset) implies i == rank - 1 by {
        if i < rank - 1 {
            assert(edits[i].0 - edits[i].1 <= edits[rank - 1].0);
        }
    }
}

impl<Offset: ShiftOffset> ShiftMap<Offset> {
    /// The shift that the point with the given number gives to `offset`.
    fn shift_from(&self, rank: usize, offset: Offset) -> (r: Option<i32>)
        requires
            self.wf(),
            rank <= self@.len(),
            forall|i: int| 0 <= i < rank ==> (#[trigger] self@[i]).0 <= offset.pos(),
            forall|i: int| rank <= i < self@.len() ==> (#[trigger] self@[i]).0 > offset.pos(),
        ensures
            match r {
                Some(shift) => shift_at(self@, offset.pos()) == Some(shift as int),
                None => shift_at(self@, offset.pos()) is None,
            },
    {
        proof {
            lemma_accumulated_is_prefix(self@, offset.pos(), rank as int);
            lemma_removing_edit(self@, offset.pos(), rank as int);
        }
        if rank == 0 {
            return Some(0);
        }
        let point = self.points[rank - 1];
        proof {
            self.lemma_stored_shift(rank - 1);
            assert(self@[rank - 1] == (point.at.pos(), own_shift(self.points@, rank - 1)));
        }
        if let Some(removed_size) = point.removed_size {
            if offset.within(point.at, removed_size) {
                return None;
            }
        }
        Some(point.shift)
    }

    /// The accumulated shift at the given offset, or `None` if the offset was removed.
    pub fn get_shift_raw(&self, offset: Offset) -> (r: Option<i32>)
        requires
            self.wf(),
        ensures
            match r {
                Some(shift) => shift_at(self@, offset.pos()) == Some(shift as int),
                None => shift_at(self@, offset.pos()) is None,
            },
    {
        let rank: usize = self.rank(offset);
        self.shift_from(rank, offset)
    }
}

proof fn lemma_with_edit_is_insert(edits: Seq<(int, int)>, edit: (int, int), k: int)
    requires
        0 <= k <= edits.len(),
        k > 0 ==> edits[k - 1].0 <= edit.0,
        forall|i: int| k <= i < edits.len() ==> (#[trigger] edits[i]).0 > edit.0,
    ensures
        with_edit(edits, edit) == edits.insert(k, edit),
    decreases edits.len(),
{
    if k < edits.len() {
        let init = edits.drop_last();
        lemma_with_edit_is_insert(init, edit, k);
        assert(init.insert(k, edit).push(edits.last()) =~= edits.insert(k, edit));
    } else {
        assert(edits.push(edit) =~= edits.insert(k, edit));
    }
}

proof fn lemma_total_of_insert(edits: Seq<(int, int)>, k: int, edit: (int, int), i: int)
    requires
        0 <= k <= i <= edits.len(),
    ensures
        total_shift(edits.insert(k, edit).take(i + 1)) == total_shift(edits.take(i)) + edit.1,
    decreases i,
{
    let longer = edits.insert(k, edit);
    if i == k {
        assert(longer.take(i + 1).drop_last() =~= edits.take(i));
    } else {
        lemma_total_of_insert(edits, k, edit, i - 1);
        assert(longer.take(i + 1).drop_last() =~= longer.take(i));
        assert(edits.take(i).drop_last() =~= edits.take(i - 1));
    }
}

/// Between the edits with numbers `i` and `j` no more is removed than lies between them.
proof fn lemma_removal_bound(edits: Seq<(int, int)>, i: int, j: int)
    requires
        valid_edits(edits),
        0 <= i <= j < edits.len(),
    ensures
        total_shift(edits.take(j)) - total_shift(edits.take(i)) >= edits[i].0 - edits[j].0,
    decreases j - i,
{
    if i < j {
        lemma_removal_bound(edits, i, j - 1);
        assert(edits.take(j).drop_last() =~= edits.take(j - 1));
        assert(edits[j - 1].0 - edits[j - 1].1 <= edits[j].0);
    }
}

spec fn is_rank(edits: Seq<(int, int)>, offset: int, rank: int) -> bool {
    &&& 0 <= rank <= edits.len()
    &&& forall|i: int| 0 <= i < rank ==> (#[trigger] edits[i]).0 <= offset
    &&& forall|i: int| rank <= i < edits.len() ==> (#[trigger] edits[i]).0 > offset
}

proof fn lemma_rank_from_neighbours(edits: Seq<(int, int)>, offset: int, rank: int)
    requires
        valid_edits(edits),
        0 <= rank <= edits.len(),
        rank > 0 ==> edits[rank - 1].0 <= offset,
        rank < edits.len() ==> edits[rank].0 > offset,
    ensures
        is_rank(edits, offset, rank),
{
    assert forall|i: int| 0 <= i < rank implies (#[trigger] edits[i]).0 <= offset by {
        if i < rank - 1 {
            assert(edits[i].0 < edits[rank - 1].0);
        }
    }
    assert forall|i: int| rank <= i < edits.len() implies (#[trigger] edits[i]).0 > offset by {
        if i > rank {
            assert(edits[rank].0 < edits[i].0);
        }
    }
}

proof fn lemma_rank_exists(edits: Seq<(int, int)>, offset: int) -> (rank: int)
    requires
        valid_edits(edits),
    ensures
        is_rank(edits, offset, rank),
    decreases edits.len(),
{
    if edits.len() == 0 {
        0
    } else if edits.last().0 <= offset {
        assert forall|i: int| 0 <= i < edits.len() implies (#[trigger] edits[i]).0 <= offset by {
            if i < edits.len() - 1 {
                assert(edits[i].0 < edits[edits.len() - 1].0);
            }
        }
        edits.len() as int
    } else {
        let init = edits.drop_last();
        assert forall|i: int| 0 <= i <= init.len() implies i32::MIN <= #[trigger] total_shift(
            init.take(i),
        ) <= i32::MAX by {
            assert(init.take(i) =~= edits.take(i));
        }
        let rank = lemma_rank_exists(init, offset);
        assert forall|i: int| rank <= i < edits.len() implies (#[trigger] edits[i]).0 > offset by {
            if i < init.len() {
                assert(init[i].0 > offset);
            }
        }
        assert forall|i: int| 0 <= i < rank implies (#[trigger] edits[i]).0 <= offset by {
            assert(init[i].0 <= offset);
        }
        rank
    }
}

/// The edits after `low` and up to `high` move what is at `high` by more than its distance to
/// `low`, backwards, only if they remove it.
proof fn lemma_shift_between(edits: Seq<(int, int)>, low: int, high: int)
    requires
        valid_edits(edits),
        low < high,
        shift_at(edits, high) is Some,
    ensures
        accumulated_shift(edits, high) - accumulated_shift(edits, low) > low - high,
{
    let r1 = lemma_rank_exists(edits, low);
    let r2 = lemma_rank_exists(edits, high);
    lemma_accumulated_is_prefix(edits, low, r1);
    lemma_accumulated_is_prefix(edits, high, r2);
    if r2 < r1 {
        assert(edits[r2].0 <= low);
    }
    if r1 < r2 {
        lemma_removal_bound(edits, r1, r2 - 1);
        assert(edits.take(r2).drop_last() =~= edits.take(r2 - 1));
        assert(!removes(edits[r2 - 1], high));
        assert(edits[r1].0 > low);
        assert(edits[r2 - 1].0 <= high);
    }
}

/// What is not removed keeps its order: of two offsets, the larger one is moved to the larger one.
pub proof fn lemma_shift_keeps_order(edits: Seq<(int, int)>, low: int, high: int)
    requires
        valid_edits(edits),
        low < high,
        shift_at(edits, low) is Some,
        shift_at(edits, high) is Some,
    ensures
        low + shift_at(edits, low)->0 < high + shift_at(edits, high)->0,
{
    lemma_shift_between(edits, low, high);
}

/// Nothing is moved in front of the first offset.
pub proof fn lemma_shifted_offset_is_natural(edits: Seq<(int, int)>, offset: int)
    requires
        valid_edits(edits),
        forall|i: int| 0 <= i < edits.len() ==> 0 <= (#[trigger] edits[i]).0,
        0 <= offset,
        shift_at(edits, offset) is Some,
    ensures
        0 <= offset + shift_at(edits, offset)->0,
{
    let rank = lemma_rank_exists(edits, -1);
    lemma_accumulated_is_prefix(edits, -1, rank);
    assert(rank == 0);
    assert(total_shift(edits.take(0)) == 0);
    lemma_shift_between(edits, -1, offset);
}

/// Without edits nothing moves.
pub proof fn lemma_no_edits_no_shift(offset: int)
    ensures
        shift_at(Seq::<(int, int)>::empty(), offset) == Some(0int),
{
}

impl<Offset: ShiftOffset> ShiftMap<Offset> {
    proof fn lemma_shifted_natural(&self, offset: Offset)
        requires
            self.wf(),
        ensures
            shift_at(self@, offset.pos()) matches Some(shift) ==> 0 <= offset.pos() + shift,
    {
        assert forall|i: int| 0 <= i < self@.len() implies 0 <= (#[trigger] self@[i]).0 by {
            self.points@[i].at.lemma_pos_bounds();
        }
        offset.lemma_pos_bounds();
        if shift_at(self@, offset.pos()) is Some {
            lemma_shifted_offset_is_natural(self@, offset.pos());
        }
    }

    /// Adding the shift of a new edit to the stored shifts behind it does not overflow.
    proof fn lemma_shifts_fit(&self, k: int, edit: (int, int))
        requires
            0 <= k <= self@.len(),
            valid_edits(self@.insert(k, edit)),
        ensures
            k == 0 ==> i32::MIN <= edit.1 <= i32::MAX,
            forall|j: int|
                #![trigger self.points@[j]]
                k - 1 <= j < self.points@.len() && 0 <= j ==> i32::MIN <= self.points@[j].shift
                    + edit.1 <= i32::MAX,
    {
        let after = self@.insert(k, edit);
        assert(after[k] == edit);
        assert forall|j: int|
            #![trigger self.points@[j]]
            k - 1 <= j < self.points@.len() && 0 <= j implies i32::MIN <= self.points@[j].shift
            + edit.1 <= i32::MAX by {
            lemma_total_of_insert(self@, k, edit, j + 1);
            self.lemma_stored_shift(j);
            assert(i32::MIN <= total_shift(after.take(j + 2)) <= i32::MAX);
        }
    }

    /// The points after an edit was added in front of the point with number `k`.
    proof fn lemma_added(before: Self, after: Self, k: int, edit: (int, int))
        requires
            before.wf(),
            0 <= k <= before@.len(),
            after.points@.len() == before.points@.len() + 1,
            forall|j: int| 0 <= j < k ==> #[trigger] after.points@[j] == before.points@[j],
            forall|j: int|
                k < j < after.points@.len() ==> (#[trigger] after.points@[j]).at == before.points@[j
                    - 1].at && after.points@[j].removed_size == before.points@[j - 1].removed_size
                    && after.points@[j].shift == before.points@[j - 1].shift + edit.1,
            after.points@[k].at.pos() == edit.0,
            after.points@[k].removed_size == removed_by(edit.1),
            after.points@[k].shift == edit.1 + if k == 0 {
                0int
            } else {
                before.points@[k - 1].shift as int
            },
        ensures
            after@ == before@.insert(k, edit),
            forall|j: int|
                0 <= j < after.points@.len() ==> (#[trigger] after.points@[j]).removed_size
                    == removed_by(own_shift(after.points@, j)),
    {
        let expected = before@.insert(k, edit);
        assert forall|j: int| 0 <= j < after.points@.len() implies #[trigger] after@[j]
            == expected[j] && after.points@[j].removed_size == removed_by(
            own_shift(after.points@, j),
        ) by {
            if j < k {
                assert(own_shift(after.points@, j) == own_shift(before.points@, j));
            } else if j > k {
                assert(expected[j] == before@[j - 1]);
                assert(own_shift(after.points@, j) == own_shift(before.points@, j - 1));
                assert(before.points@[j - 1].removed_size == removed_by(
                    own_shift(before.points@, j - 1),
                ));
            }
        }
        assert forall|j: int| 0 <= j < after.points@.len() implies (
        #[trigger] after.points@[j]).removed_size == removed_by(own_shift(after.points@, j)) by {
            assert(after@[j] == expected[j]);
        }
        assert(after@ =~= expected);
    }

    /// Where the given offset moves to, or `None` if it was removed.
    pub fn get_shifted_offset(&self, offset: Offset) -> (r: Option<Offset>)
        requires
            self.wf(),
            shift_at(self@, offset.pos()) matches Some(shift) ==> offset.pos() + shift
                <= Offset::max_pos(),
        ensures
            match shift_at(self@, offset.pos()) {
                Some(shift) => r matches Some(o) && o.pos() == offset.pos() + shift,
                None => r is None,
            },
    {
        match self.get_shift_raw(offset) {
            Some(shift) => {
                proof {
                    self.lemma_shifted_natural(offset);
                }
                Some(moved(offset, shift))
            },
            None => None,
        }
    }

    /// Adds an edit. No other edit may have the same offset, lie in what this one removes, or
    /// remove what is at its offset.
    pub fn add_shift_point(&mut self, point: ShiftPoint<Offset>)
        requires
            old(self).wf(),
            point.shift != 0,
            valid_edits(with_edit(old(self)@, point.edit())),
        ensures
            final(self).wf(),
            final(self)@ == with_edit(old(self)@, point.edit()),
    {
        let ghost before = *self;
        let rank: usize = self.rank(point.at);
        let ghost k = rank as int;
        proof {
            lemma_with_edit_is_insert(self@, point.edit(), k);
            assert(self@.insert(k, point.edit())[k] == point.edit());
            self.lemma_shifts_fit(k, point.edit());
        }
        let removed_size: Option<u32> = if point.shift < 0 {
            Some((-point.shift) as u32)
        } else {
            None
        };
        let last_shift: i32 = if rank == 0 {
            0
        } else {
            self.points[rank - 1].shift
        };
        self.points.insert(rank, Point { at: point.at, shift: last_shift, removed_size });
        let mut i: usize = rank;
        while i < self.points.len()
            invariant
                k == rank,
                0 <= k <= before.points@.len(),
                k <= i <= self.points@.len(),
                self.points@.len() == before.points@.len() + 1,
                last_shift == if k == 0 {
                    0int
                } else {
                    before.points@[k - 1].shift as int
                },
                k == 0 ==> i32::MIN <= point.shift <= i32::MAX,
                forall|j: int|
                    #![trigger before.points@[j]]
                    k - 1 <= j < before.points@.len() && 0 <= j ==> i32::MIN
                        <= before.points@[j].shift + point.shift <= i32::MAX,
                forall|j: int| 0 <= j < k ==> #[trigger] self.points@[j] == before.points@[j],
                forall|j: int|
                    k < j < self.points@.len() ==> (#[trigger] self.points@[j]).at
                        == before.points@[j - 1].at && self.points@[j].removed_size
                        == before.points@[j - 1].removed_size && self.points@[j].shift
                        == before.points@[j - 1].shift + if j < i {
                        point.shift as int
                    } else {
                        0
                    },
                self.points@[k].at == point.at,
                self.points@[k].removed_size == removed_size,
                self.points@[k].shift == last_shift + if i > k {
                    point.shift as int
                } else {
                    0
                },
            decreases self.points@.len() - i,
        {
            self.points[i].shift = self.points[i].shift + point.shift;
            i = i + 1;
        }
        proof {
            Self::lemma_added(before, *self, k, point.edit());
        }
    }

    /// Inserts `shift` places at an offset.
    pub fn insert(&mut self, at: Offset, shift: u32)
        requires
            old(self).wf(),
            0 < shift <= i32::MAX,
            valid_edits(with_edit(old(self)@, (at.pos(), shift as int))),
        ensures
            final(self).wf(),
            final(self)@ == with_edit(old(self)@, (at.pos(), shift as int)),
    {
        self.add_shift_point(ShiftPoint::insert(at, shift));
    }

    /// Removes `removed_size` places from an offset on.
    pub fn remove(&mut self, at: Offset, removed_size: u32)
        requires
            old(self).wf(),
            0 < removed_size <= i32::MAX,
            valid_edits(with_edit(old(self)@, (at.pos(), -removed_size))),
        ensures
            final(self).wf(),
            final(self)@ == with_edit(old(self)@, (at.pos(), -removed_size)),
    {
        self.add_shift_point(ShiftPoint::remove(at, removed_size));
    }
}

/// The offset moved by `shift` places.
fn moved<Offset: ShiftOffset>(offset: Offset, shift: i32) -> (r: Offset)
    requires
        0 <= offset.pos() + shift <= Offset::max_pos(),
    ensures
        r.pos() == offset.pos() + shift,
{
    if shift < 0 {
        offset.backward((-(shift as i64)) as u32)
    } else {
        offset.forward(shift as u32)
    }
}

/// The edits that points stand for.
pub open spec fn edits_of<Offset: Position>(points: Seq<ShiftPoint<Offset>>) -> Seq<(int, int)> {
    Seq::new(points.len(), |i: int| points[i].edit())
}

impl<Offset: ShiftOffset> ShiftMap<Offset> {
    /// Sorts points by their offsets.
    fn sorted(points: &Vec<ShiftPoint<Offset>>) -> (r: Vec<ShiftPoint<Offset>>)
        ensures
            edits_of(r@) == ordered_edits(edits_of(points@)),
    {
        let mut sorted: Vec<ShiftPoint<Offset>> = Vec::new();
        let mut i: usize = 0;
        proof {
            assert(edits_of(sorted@) =~= Seq::<(int, int)>::empty());
            assert(edits_of(points@).take(0) =~= Seq::<(int, int)>::empty());
        }
        while i < points.len()
            invariant
                i <= points@.len(),
                edits_of(sorted@) == ordered_edits(edits_of(points@).take(i as int)),
            decreases points@.len() - i,
        {
            let point = points[i];
            let ghost edits = edits_of(sorted@);
            let mut k: usize = sorted.len();
            while k > 0 && !sorted[k - 1].at.at_or_before(point.at)
                invariant
                    k <= sorted@.len(),
                    edits == edits_of(sorted@),
                    forall|j: int| k <= j < edits.len() ==> (#[trigger] edits[j]).0 > point.at.pos(),
                decreases k,
            {
                assert(edits[k - 1] == sorted@[k - 1].edit());
                k = k - 1;
            }
            proof {
                lemma_with_edit_is_insert(edits, point.edit(), k as int);
                let longer = edits_of(points@).take(i + 1);
                assert(longer.drop_last() =~= edits_of(points@).take(i as int));
                assert(edits_of(sorted@.insert(k as int, point)) =~= edits.insert(
                    k as int,
                    point.edit(),
                ));
            }
            sorted.insert(k, point);
            i = i + 1;
        }
        assert(edits_of(points@).take(i as int) =~= edits_of(points@));
        sorted
    }

    /// Builds the map from points in any order. No two points may have the same offset, and none
    /// may lie in what another one removes.
    pub fn build(points: Vec<ShiftPoint<Offset>>) -> (r: Self)
        requires
            valid_edits(ordered_edits(edits_of(points@))),
        ensures
            r.wf(),
            r@ == ordered_edits(edits_of(points@)),
    {
        let sorted = Self::sorted(&points);
        let ghost edits = edits_of(sorted@);
        let mut result: Vec<Point<Offset>> = Vec::new();
        let mut accumulated_shift: i32 = 0;
        let mut i: usize = 0;
        assert(total_shift(edits.take(0)) == 0);
        while i < sorted.len()
            invariant
                i <= sorted@.len(),
                edits == edits_of(sorted@),
                valid_edits(edits),
                result@.len() == i,
                accumulated_shift == total_shift(edits.take(i as int)),
                i > 0 ==> accumulated_shift == result@[i - 1].shift,
                forall|j: int|
                    0 <= j < i ==> (#[trigger] result@[j]).at == sorted@[j].at && own_shift(
                        result@,
                        j,
                    ) == edits[j].1 && result@[j].removed_size == removed_by(edits[j].1),
            decreases sorted@.len() - i,
        {
            let point = sorted[i];
            proof {
                assert(edits[i as int] == point.edit());
                assert(edits.take(i + 1).drop_last() =~= edits.take(i as int));
                assert(edits.take(i + 1).last() == point.edit());
                assert(i32::MIN <= total_shift(edits.take(i + 1)) <= i32::MAX);
            }
            let removed_size: Option<u32> = if point.shift < 0 {
                Some((-point.shift) as u32)
            } else {
                None
            };
            accumulated_shift = accumulated_shift + point.shift;
            let ghost before = result@;
            result.push(Point { at: point.at, shift: accumulated_shift, removed_size });
            proof {
                assert forall|j: int| 0 <= j < i + 1 implies (#[trigger] result@[j]).at
                    == sorted@[j].at && own_shift(result@, j) == edits[j].1
                    && result@[j].removed_size == removed_by(edits[j].1) by {
                    if j < i {
                        assert(result@[j] == before[j]);
                        assert(own_shift(result@, j) == own_shift(before, j));
                    }
                }
            }
            i = i + 1;
        }
        let map = ShiftMap { points: result };
        assert(map@ =~= edits);
        map
    }
}

/// A point of one sequence of ordered edits is a point of the other.
proof fn lemma_same_multiset_contains(a: Seq<(int, int)>, b: Seq<(int, int)>, i: int) -> (j: int)
    requires
        a.to_multiset() == b.to_multiset(),
        0 <= i < a.len(),
    ensures
        0 <= j < b.len(),
        b[j] == a[i],
{
    broadcast use vstd::seq_lib::group_to_multiset_ensures;

    assert(a.to_multiset().contains(a[i]));
    assert(b.contains(a[i]));
    b.index_of(a[i])
}

/// Where one more edit is put: behind those at or before its offset.
proof fn lemma_with_edit_place(edits: Seq<(int, int)>, edit: (int, int)) -> (place: int)
    ensures
        0 <= place <= edits.len(),
        with_edit(edits, edit) == edits.insert(place, edit),
        in_order(edits) ==> in_order(with_edit(edits, edit)),
    decreases edits.len(),
{
    if edits.len() > 0 && edit.0 < edits.last().0 {
        let place = lemma_with_edit_place(edits.drop_last(), edit);
        assert(with_edit(edits, edit) =~= edits.insert(place, edit));
        if in_order(edits) {
            let before = with_edit(edits.drop_last(), edit);
            assert forall|i: int| 0 <= i < before.len() implies (#[trigger] before[i]).0
                <= edits.last().0 by {
                if i < place {
                    assert(before[i] == edits[i]);
                } else if i > place {
                    assert(before[i] == edits[i - 1]);
                }
            }
        }
        place
    } else {
        assert(with_edit(edits, edit) =~= edits.insert(edits.len() as int, edit));
        edits.len() as int
    }
}

/// Whether no edit stands before one with a smaller offset.
spec fn in_order(edits: Seq<(int, int)>) -> bool {
    forall|i: int, j: int|
        #![trigger edits[i], edits[j]]
        0 <= i < j < edits.len() ==> edits[i].0 <= edits[j].0
}

proof fn lemma_ordered_edits_in_order(edits: Seq<(int, int)>)
    ensures
        in_order(ordered_edits(edits)),
    decreases edits.len(),
{
    if edits.len() > 0 {
        lemma_ordered_edits_in_order(edits.drop_last());
        let _ = lemma_with_edit_place(ordered_edits(edits.drop_last()), edits.last());
    }
}

proof fn lemma_ordered_edits_unique(a: Seq<(int, int)>, b: Seq<(int, int)>)
    requires
        forall|i: int, j: int|
            #![trigger a[i], a[j]]
            0 <= i < j < a.len() ==> a[i].0 < a[j].0,
        in_order(b),
        a.to_multiset() == b.to_multiset(),
    ensures
        a == b,
    decreases a.len(),
{
    broadcast use vstd::seq_lib::group_to_multiset_ensures;

    assert(a.len() == a.to_multiset().len());
    assert(b.len() == b.to_multiset().len());
    if a.len() == 0 {
        assert(a =~= b);
    } else {
        let i = lemma_same_multiset_contains(b, a, b.len() - 1);
        let j = lemma_same_multiset_contains(a, b, a.len() - 1);
        assert(a.last() == b.last()) by {
            if i < a.len() - 1 {
                assert(a[i].0 < a[a.len() - 1].0);
                if j < b.len() - 1 {
                    assert(b[j].0 <= b[b.len() - 1].0);
                }
            }
        }
        assert(a.drop_last().push(a.last()) =~= a);
        assert(b.drop_last().push(b.last()) =~= b);
        assert(a.drop_last().to_multiset() =~= a.to_multiset().remove(a.last()));
        assert(b.drop_last().to_multiset() =~= b.to_multiset().remove(b.last()));
        lemma_ordered_edits_unique(a.drop_last(), b.drop_last());
    }
}

proof fn lemma_with_edit_multiset(edits: Seq<(int, int)>, edit: (int, int))
    ensures
        with_edit(edits, edit).to_multiset() == edits.to_multiset().insert(edit),
    decreases edits.len(),
{
    broadcast use vstd::seq_lib::group_to_multiset_ensures;

    if edits.len() > 0 && edit.0 < edits.last().0 {
        lemma_with_edit_multiset(edits.drop_last(), edit);
        assert(edits.drop_last().push(edits.last()) =~= edits);
        assert(with_edit(edits, edit).to_multiset() =~= edits.to_multiset().insert(edit));
    }
}

proof fn lemma_ordered_edits_multiset(edits: Seq<(int, int)>)
    ensures
        ordered_edits(edits).to_multiset() == edits.to_multiset(),
    decreases edits.len(),
{
    broadcast use vstd::seq_lib::group_to_multiset_ensures;

    if edits.len() > 0 {
        lemma_ordered_edits_multiset(edits.drop_last());
        lemma_with_edit_multiset(ordered_edits(edits.drop_last()), edits.last());
        assert(edits.drop_last().push(edits.last()) =~= edits);
    } else {
        assert(edits =~= ordered_edits(edits));
    }
}

/// The order in which edits are given does not matter.
pub proof fn lemma_edit_order_irrelevant(a: Seq<(int, int)>, b: Seq<(int, int)>)
    requires
        valid_edits(ordered_edits(a)),
        a.to_multiset() == b.to_multiset(),
    ensures
        ordered_edits(a) == ordered_edits(b),
{
    lemma_ordered_edits_multiset(a);
    lemma_ordered_edits_multiset(b);
    lemma_ordered_edits_in_order(b);
    lemma_ordered_edits_unique(ordered_edits(a), ordered_edits(b));
}

/// Building a map from points is the same as adding them to an empty map one after the other.
pub proof fn lemma_build_is_incremental<Offset: Position>(
    points: Seq<ShiftPoint<Offset>>,
    point: ShiftPoint<Offset>,
)
    ensures
        ordered_edits(edits_of(Seq::<ShiftPoint<Offset>>::empty())) == Seq::<(int, int)>::empty(),
        ordered_edits(edits_of(points.push(point))) == with_edit(
            ordered_edits(edits_of(points)),
            point.edit(),
        ),
{
    assert(edits_of(points.push(point)).drop_last() =~= edits_of(points));
}

/// Edits that lie apart still do so without one of them.
proof fn lemma_apart_without(edits: Seq<(int, int)>, edit: (int, int))
    requires
        apart_edits(with_edit(edits, edit)),
    ensures
        apart_edits(edits),
{
    let place = lemma_with_edit_place(edits, edit);
    let with = with_edit(edits, edit);
    assert forall|i: int, j: int|
        #![trigger edits[i], edits[j]]
        0 <= i < j < edits.len() implies edits[i].0 < edits[j].0 && edits[i].0 - edits[i].1
        <= edits[j].0 by {
        let k = if i < place {
            i
        } else {
            i + 1
        };
        let l = if j < place {
            j
        } else {
            j + 1
        };
        assert(with[k] == edits[i] && with[l] == edits[j]);
    }
}

proof fn lemma_apart_before(edits: Seq<(int, int)>, k: int)
    requires
        apart_edits(ordered_edits(edits)),
        0 <= k <= edits.len(),
    ensures
        apart_edits(ordered_edits(edits.take(k))),
    decreases edits.len() - k,
{
    if k < edits.len() {
        lemma_apart_before(edits, k + 1);
        assert(edits.take(k + 1).drop_last() =~= edits.take(k));
        lemma_apart_without(ordered_edits(edits.take(k)), edits[k]);
    } else {
        assert(edits.take(k) =~= edits);
    }
}

/// Whether no sum overflows while the points are added to an empty map one after the other.
pub open spec fn sums_fit_on_the_way<Offset: Position>(points: Seq<ShiftPoint<Offset>>) -> bool {
    forall|k: int|
        0 <= k <= points.len() ==> sums_fit(
            ordered_edits(edits_of(#[trigger] points.take(k))),
        )
}

/// Whether the points can be added to an empty map one after the other.
pub open spec fn can_add_each<Offset: Position>(points: Seq<ShiftPoint<Offset>>) -> bool {
    &&& forall|k: int| 0 <= k < points.len() ==> (#[trigger] points[k]).shift != 0
    &&& forall|k: int|
        0 <= k <= points.len() ==> valid_edits(
            ordered_edits(edits_of(#[trigger] points.take(k))),
        )
}

/// Points that shift something can be added to an empty map one after the other, in any order in
/// which no sum overflows, exactly where the map can be built from them; the map is then the same.
pub proof fn lemma_adding_is_building<Offset: Position>(
    points: Seq<ShiftPoint<Offset>>,
    added: Seq<ShiftPoint<Offset>>,
)
    requires
        edits_of(added).to_multiset() == edits_of(points).to_multiset(),
        forall|k: int| 0 <= k < added.len() ==> (#[trigger] added[k]).shift != 0,
        sums_fit_on_the_way(added),
    ensures
        can_add_each(added) <==> valid_edits(ordered_edits(edits_of(points))),
        can_add_each(added) ==> ordered_edits(edits_of(added)) == ordered_edits(edits_of(points)),
{
    let edits = edits_of(added);
    assert(added.take(added.len() as int) =~= added);
    if can_add_each(added) {
        lemma_edit_order_irrelevant(edits, edits_of(points));
    }
    if valid_edits(ordered_edits(edits_of(points))) {
        lemma_edit_order_irrelevant(edits_of(points), edits);
        assert forall|k: int| 0 <= k <= added.len() implies valid_edits(
            ordered_edits(edits_of(#[trigger] added.take(k))),
        ) by {
            assert(edits_of(added.take(k)) =~= edits.take(k));
            lemma_apart_before(edits, k);
        }
    }
}

/// For many queries one after the other: remembers the place of the last query, so that no search
/// over the whole map is needed.
pub struct ShiftCursor<'a, Offset> {
    shift_map: &'a ShiftMap<Offset>,
    // number of points at or before the last offset
    current_index: usize,
}

impl<'a, Offset: ShiftOffset> ShiftCursor<'a, Offset> {
    pub closed spec fn map(&self) -> ShiftMap<Offset> {
        *self.shift_map
    }

    pub closed spec fn wf(&self) -> bool {
        &&& self.shift_map.wf()
        &&& self.current_index <= self.shift_map@.len()
    }

    /// The accumulated shift at the given offset, or `None` if the offset was removed.
    pub fn get_shift_raw(&mut self, offset: Offset) -> (r: Option<i32>)
        requires
            old(self).wf(),
        ensures
            final(self).wf(),
            final(self).map() == old(self).map(),
            match r {
                Some(shift) => shift_at(old(self).map()@, offset.pos()) == Some(shift as int),
                None => shift_at(old(self).map()@, offset.pos()) is None,
            },
    {
        let map = self.shift_map;
        let mut rank: usize = self.current_index;
        while rank < map.points.len() && map.points[rank].at.at_or_before(offset)
            invariant
                map.wf(),
                rank <= map@.len(),
            decreases map@.len() - rank,
        {
            rank = rank + 1;
        }
        assert(rank < map@.len() ==> map@[rank as int].0 > offset.pos());
        while rank > 0 && !map.points[rank - 1].at.at_or_before(offset)
            invariant
                map.wf(),
                rank <= map@.len(),
                rank < map@.len() ==> map@[rank as int].0 > offset.pos(),
            decreases rank,
        {
            rank = rank - 1;
            assert(map@[rank as int].0 == map.points@[rank as int].at.pos());
        }
        proof {
            if rank > 0 {
                assert(map@[rank - 1].0 == map.points@[rank - 1].at.pos());
            }
            lemma_rank_from_neighbours(map@, offset.pos(), rank as int);
        }
        self.current_index = rank;
        map.shift_from(rank, offset)
    }

    /// Where the given offset moves to, or `None` if it was removed.
    pub fn get_shifted_offset(&mut self, offset: Offset) -> (r: Option<Offset>)
        requires
            old(self).wf(),
            shift_at(old(self).map()@, offset.pos()) matches Some(shift) ==> offset.pos() + shift
                <= Offset::max_pos(),
        ensures
            final(self).wf(),
            final(self).map() == old(self).map(),
            match shift_at(old(self).map()@, offset.pos()) {
                Some(shift) => r matches Some(o) && o.pos() == offset.pos() + shift,
                None => r is None,
            },
    {
        proof {
            self.shift_map.lemma_shifted_natural(offset);
        }
        match self.get_shift_raw(offset) {
            Some(shift) => Some(moved(offset, shift)),
            None => None,
        }
    }
}

impl<Offset: ShiftOffset> ShiftMap<Offset> {
    /// A cursor that starts near the given offset.
    pub fn cursor_at(&self, offset: Offset) -> (r: ShiftCursor<'_, Offset>)
        requires
            self.wf(),
        ensures
            r.wf(),
            r.map() == *self,
    {
        let current_index: usize = self.rank(offset);
        ShiftCursor { shift_map: self, current_index }
    }
}

/// Number of bytes of the LEB128 encoding of a number.
pub fn encoding_size(n: u32) -> (r: usize)
    ensures
        r == uleb(n as nat).len(),
{
    variable_u32(n).1
}

/// What `rustc_demangle` shows for a symbol name.
pub uninterp spec fn demangled(name: Seq<char>) -> Seq<char>;

/// `rustc_demangle::demangle`, displayed: the readable form of a mangled symbol name, a function of
/// the name alone.
#[verifier::external_body]
fn demangle(name: &str) -> (r: String)
    ensures
        r@ == demangled(name@),
{
    rustc_demangle::demangle(name).to_string()
}

/// The readable form of a mangled symbol name, with its hash.
pub fn demangle_full(name: &str) -> (r: String)
    ensures
        r@ == demangled(name@),
{
    demangle(name)
}

} // verus!
