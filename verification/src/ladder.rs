//! An ordered quality ladder over a caller-supplied registry of rungs.
//!
//! The order in which the registry declares its rungs *is* the ladder: index `0`
//! is the floor (cheapest, most degraded), the last index is the top (most
//! expensive, best). No type can check that the declared order is the order of
//! cost; [`Ladder::parse`] checks what can be checked, that there are at least
//! two rungs and that no two are equal.
//!
//! Rungs are compared with the `==` of the rung type and with nothing else. What
//! the contracts say about positions holds where `==` is an equivalence, which is
//! what `Eq` asks of it, and where the verifier knows what `==` answers: see
//! [`lawful_eq`]. Of the integers it knows that. Of a derived `==` it knows nothing,
//! even beside a derived `Structural`: a verified caller that wants those clauses for
//! an enum of its own writes `PartialEq` by hand, and beside it vstd's
//! `PartialEqSpecImpl`. Every caller gets the other clauses.
use vstd::prelude::*;
use vstd::std_specs::cmp::PartialEqSpec;

verus! {

/// `==` on `T` answers as `eq_spec` says and is an equivalence relation.
pub open spec fn lawful_eq<T: Eq>() -> bool {
    &&& T::obeys_eq_spec()
    &&& forall|x: T| #[trigger] x.eq_spec(&x)
    &&& forall|x: T, y: T| #[trigger] x.eq_spec(&y) ==> y.eq_spec(&x)
    &&& forall|x: T, y: T, z: T| #[trigger]
        x.eq_spec(&y) && #[trigger] y.eq_spec(&z) ==> x.eq_spec(&z)
}

/// `t` equals some rung.
pub open spec fn on_ladder<T: Eq>(rungs: Seq<T>, t: T) -> bool {
    exists|i: int| 0 <= i < rungs.len() && (#[trigger] rungs[i]).eq_spec(&t)
}

/// `i` is the first index whose rung equals `t`.
pub open spec fn is_position<T: Eq>(rungs: Seq<T>, t: T, i: int) -> bool {
    &&& 0 <= i < rungs.len()
    &&& rungs[i].eq_spec(&t)
    &&& forall|j: int| 0 <= j < i ==> !(#[trigger] rungs[j]).eq_spec(&t)
}

/// The index of `t`; meaningful where `on_ladder(rungs, t)`.
pub open spec fn position<T: Eq>(rungs: Seq<T>, t: T) -> int {
    choose|i: int| is_position(rungs, t, i)
}

/// One rung cheaper than `t`, saturating at the floor; the floor where `t` is not
/// on the ladder.
pub open spec fn cheaper<T: Eq>(rungs: Seq<T>, t: T) -> T {
    if on_ladder(rungs, t) {
        rungs[vstd::math::max(position(rungs, t) - 1, 0)]
    } else {
        rungs[0]
    }
}

/// One rung richer than `t`, saturating at `ceiling`; the floor where `t` or
/// `ceiling` is not on the ladder.
pub open spec fn richer<T: Eq>(rungs: Seq<T>, t: T, ceiling: T) -> T {
    if on_ladder(rungs, t) && on_ladder(rungs, ceiling) {
        rungs[vstd::math::min(position(rungs, t) + 1, position(rungs, ceiling))]
    } else {
        rungs[0]
    }
}

/// No rung occurs twice.
pub open spec fn distinct<T: Eq>(rungs: Seq<T>) -> bool {
    forall|i: int, j: int|
        #![trigger rungs[i], rungs[j]]
        0 <= i < j < rungs.len() ==> !rungs[i].eq_spec(&rungs[j])
}

/// `second` is the first index after `first` that repeats the rung at `first`,
/// and no rung before `first` is repeated anywhere.
pub open spec fn is_first_duplicate<T: Eq>(rungs: Seq<T>, first: int, second: int) -> bool {
    &&& 0 <= first < second < rungs.len()
    &&& rungs[first].eq_spec(&rungs[second])
    &&& forall|j: int| #![trigger rungs[j]] first < j < second ==> !rungs[first].eq_spec(&rungs[j])
    &&& forall|i: int, j: int|
        #![trigger rungs[i], rungs[j]]
        0 <= i < first && i < j < rungs.len() ==> !rungs[i].eq_spec(&rungs[j])
}

/// The decimal digits of `n`, most significant first.
pub open spec fn decimal(n: nat) -> Seq<char>
    decreases n,
{
    let digit = seq![('0' as u32 + n % 10) as char];
    if n < 10 {
        digit
    } else {
        decimal(n / 10) + digit
    }
}

/// The ten digits as characters.
fn digit_str(d: usize) -> (s: &'static str)
    requires
        d < 10,
    ensures
        s@ == decimal(d as nat),
{
    proof {
        reveal_strlit("0");
        reveal_strlit("1");
        reveal_strlit("2");
        reveal_strlit("3");
        reveal_strlit("4");
        reveal_strlit("5");
        reveal_strlit("6");
        reveal_strlit("7");
        reveal_strlit("8");
        reveal_strlit("9");
    }
    match d {
        0 => "0",
        1 => "1",
        2 => "2",
        3 => "3",
        4 => "4",
        5 => "5",
        6 => "6",
        7 => "7",
        8 => "8",
        _ => "9",
    }
}

/// Appends the decimal digits of `n` to `out`.
fn append_decimal(out: &mut String, n: usize)
    ensures
        final(out)@ == old(out)@ + decimal(n as nat),
    decreases n,
{
    if n >= 10 {
        append_decimal(out, n / 10);
        out.append(digit_str(n % 10));
        assert(decimal(n as nat) == decimal(n as nat / 10) + decimal(n as nat % 10));
    } else {
        out.append(digit_str(n));
    }
}

/// Why a [`Ladder`] could not be built, or a ceiling not be placed on it.
#[derive(Debug, Clone, Copy, PartialEq, Eq, Structural)]
pub enum LadderError {
    /// Fewer than two rungs. A one-rung ladder has no step to take, so a governor
    /// over it could never act.
    TooShort,
    /// The registry holds the same rung twice, at the given indices. A duplicate
    /// would make [`Ladder::rung`] ambiguous and let `down` then `up` land
    /// somewhere other than where it started.
    Duplicate {
        /// The earlier index.
        first: usize,
        /// The later index holding an equal value.
        second: usize,
    },
    /// A ceiling was supplied that is not a rung of the ladder.
    CeilingNotOnLadder,
}

impl LadderError {
    /// The text of the error.
    pub open spec fn text(self) -> Seq<char> {
        match self {
            LadderError::TooShort => "a ladder needs at least two rungs to have a step"@,
            LadderError::Duplicate { first, second } => "duplicate rung at indices "@ + decimal(
                first as nat,
            ) + " and "@ + decimal(second as nat),
            LadderError::CeilingNotOnLadder => "the ceiling is not a rung on this ladder"@,
        }
    }

    /// Renders the error for a person to read.
    pub fn to_string(&self) -> (res: String)
        ensures
            res@ == self.text(),
            match *self {
                LadderError::TooShort => res@
                    == "a ladder needs at least two rungs to have a step"@,
                LadderError::Duplicate { first, second } => res@ == "duplicate rung at indices "@
                    + decimal(first as nat) + " and "@ + decimal(second as nat),
                LadderError::CeilingNotOnLadder => res@
                    == "the ceiling is not a rung on this ladder"@,
            },
    {
        match *self {
            LadderError::TooShort => String::from_str(
                "a ladder needs at least two rungs to have a step",
            ),
            LadderError::Duplicate { first, second } => {
                let mut out = String::from_str("duplicate rung at indices ");
                append_decimal(&mut out, first);
                out.append(" and ");
                append_decimal(&mut out, second);
                out
            },
            LadderError::CeilingNotOnLadder => String::from_str(
                "the ceiling is not a rung on this ladder",
            ),
        }
    }
}

/// An ordered ladder of quality rungs, cheapest first.
///
/// Cheap to copy: it holds a `&'static` slice and nothing else. Its view is the
/// sequence of rungs.
#[derive(Debug, Clone, Copy, PartialEq, Eq)]
pub struct Ladder<T: 'static> {
    rungs: &'static [T],
}

impl<T: 'static> View for Ladder<T> {
    type V = Seq<T>;

    closed spec fn view(&self) -> Seq<T> {
        self.rungs@
    }
}

impl<T: Copy + Eq + 'static> Ladder<T> {
    /// At least two rungs, no two of them equal.
    pub open spec fn wf(self) -> bool {
        &&& self@.len() >= 2
        &&& lawful_eq::<T>() ==> distinct(self@)
    }

    /// Builds a ladder from a registry of rungs, cheapest first.
    ///
    /// A registry of fewer than two rungs is [`LadderError::TooShort`]. Otherwise
    /// one that holds a rung twice is [`LadderError::Duplicate`], with the earliest
    /// repeated rung and the first index that repeats it.
    pub fn parse(rungs: &'static [T]) -> (res: Result<Self, LadderError>)
        ensures
            match res {
                Ok(ladder) => ladder@ == rungs@ && ladder.wf() && rungs@.len() >= 2,
                Err(LadderError::TooShort) => rungs@.len() < 2,
                Err(LadderError::Duplicate { first, second }) => {
                    &&& first < second < rungs@.len()
                    &&& lawful_eq::<T>() ==> is_first_duplicate(
                        rungs@,
                        first as int,
                        second as int,
                    )
                },
                Err(LadderError::CeilingNotOnLadder) => false,
            },
            lawful_eq::<T>() ==> (res is Ok <==> rungs@.len() >= 2 && distinct(rungs@)),
    {
        if rungs.len() < 2 {
            return Err(LadderError::TooShort);
        }
        let mut i: usize = 0;
        while i < rungs.len()
            invariant
                i <= rungs@.len(),
                lawful_eq::<T>() ==> forall|a: int, b: int|
                    #![trigger rungs@[a], rungs@[b]]
                    0 <= a < i && a < b < rungs@.len() ==> !rungs@[a].eq_spec(&rungs@[b]),
            decreases rungs@.len() - i,
        {
            let mut j: usize = i + 1;
            while j < rungs.len()
                invariant
                    i < j <= rungs@.len(),
                    lawful_eq::<T>() ==> forall|a: int, b: int|
                        #![trigger rungs@[a], rungs@[b]]
                        0 <= a < i && a < b < rungs@.len() ==> !rungs@[a].eq_spec(&rungs@[b]),
                    lawful_eq::<T>() ==> forall|b: int|
                        #![trigger rungs@[b]]
                        i < b < j ==> !rungs@[i as int].eq_spec(&rungs@[b]),
                decreases rungs@.len() - j,
            {
                if rungs[i] == rungs[j] {
                    return Err(LadderError::Duplicate { first: i, second: j });
                }
                j += 1;
            }
            i += 1;
        }
        Ok(Self { rungs })
    }

    /// Every rung, cheapest first.
    #[must_use]
    pub fn rungs(&self) -> (res: &'static [T])
        ensures
            res@ == self@,
    {
        self.rungs
    }

    /// How many rungs.
    #[must_use]
    pub fn len(&self) -> (res: usize)
        ensures
            res == self@.len(),
    {
        self.rungs.len()
    }

    /// Always `false`: [`parse`](Self::parse) rejects a ladder shorter than two
    /// rungs, so an empty one cannot be constructed.
    #[must_use]
    pub fn is_empty(&self) -> (res: bool)
        ensures
            !res,
            self.wf() ==> res == (self@.len() == 0),
    {
        false
    }

    /// The index of `t`, or `None` if it is not on this ladder.
    #[must_use]
    pub fn rung(&self, t: T) -> (res: Option<usize>)
        ensures
            res matches Some(i) ==> i < self@.len(),
            lawful_eq::<T>() ==> match res {
                Some(i) => on_ladder(self@, t) && i == position(self@, t) && is_position(
                    self@,
                    t,
                    i as int,
                ),
                None => !on_ladder(self@, t),
            },
    {
        let mut i: usize = 0;
        while i < self.rungs.len()
            invariant
                i <= self@.len(),
                self@ == self.rungs@,
                lawful_eq::<T>() ==> forall|j: int|
                    0 <= j < i ==> !(#[trigger] self@[j]).eq_spec(&t),
            decreases self@.len() - i,
        {
            if self.rungs[i] == t {
                proof {
                    if lawful_eq::<T>() {
                        lemma_position(self@, t, i as int);
                    }
                }
                return Some(i);
            }
            i += 1;
        }
        None
    }

    /// `true` if `t` is a rung on this ladder.
    #[must_use]
    pub fn contains(&self, t: T) -> (res: bool)
        ensures
            lawful_eq::<T>() ==> res == on_ladder(self@, t),
    {
        self.rung(t).is_some()
    }

    /// The cheapest rung.
    #[must_use]
    pub fn floor(&self) -> (res: T)
        requires
            self.wf(),
        ensures
            res == self@.first(),
    {
        self.rungs[0]
    }

    /// The most expensive rung.
    #[must_use]
    pub fn top(&self) -> (res: T)
        requires
            self.wf(),
        ensures
            res == self@.last(),
    {
        self.rungs[self.rungs.len() - 1]
    }

    /// One rung cheaper, saturating at the floor.
    ///
    /// A `t` that is not on this ladder gives the floor: shedding to the cheapest
    /// rung is the safe direction for a state the ladder cannot describe.
    #[must_use]
    pub fn down(&self, t: T) -> (res: T)
        requires
            self.wf(),
        ensures
            self@.contains(res),
            lawful_eq::<T>() ==> res == cheaper(self@, t),
    {
        match self.rung(t) {
            Some(0) | None => self.floor(),
            Some(i) => self.rungs[i - 1],
        }
    }

    /// One rung richer, saturating at `ceiling`.
    ///
    /// Climbing never passes the ceiling even when the ladder has further rungs,
    /// and a `t` above the ceiling is pulled down to it. An unknown `t` or an
    /// unknown `ceiling` gives the floor: quality is never granted on the strength
    /// of a value that could not be placed.
    #[must_use]
    pub fn up(&self, t: T, ceiling: T) -> (res: T)
        requires
            self.wf(),
        ensures
            self@.contains(res),
            lawful_eq::<T>() ==> res == richer(self@, t, ceiling),
    {
        match (self.rung(t), self.rung(ceiling)) {
            (Some(i), Some(cap)) => if i >= cap {
                self.rungs[cap]
            } else {
                self.rungs[i + 1]
            },
            _ => self.floor(),
        }
    }

    /// Checks that `ceiling` is on this ladder; it is
    /// [`LadderError::CeilingNotOnLadder`] if it is not.
    pub fn validate_ceiling(&self, ceiling: T) -> (res: Result<(), LadderError>)
        ensures
            res matches Err(e) ==> e == LadderError::CeilingNotOnLadder,
            lawful_eq::<T>() ==> (res is Ok <==> on_ladder(self@, ceiling)),
    {
        if self.contains(ceiling) {
            Ok(())
        } else {
            Err(LadderError::CeilingNotOnLadder)
        }
    }
}

/// An index found to be the first match is the position.
pub proof fn lemma_position<T: Eq>(rungs: Seq<T>, t: T, i: int)
    requires
        is_position(rungs, t, i),
    ensures
        on_ladder(rungs, t),
        position(rungs, t) == i,
{
    let p = position(rungs, t);
    assert(is_position(rungs, t, p));
    if p < i {
        assert(!rungs[p].eq_spec(&t));
    } else if i < p {
        assert(!rungs[i].eq_spec(&t));
    }
}

/// A value on the ladder has a position.
pub proof fn lemma_has_position<T: Eq>(rungs: Seq<T>, t: T)
    requires
        on_ladder(rungs, t),
    ensures
        is_position(rungs, t, position(rungs, t)),
{
    let i = choose|i: int| 0 <= i < rungs.len() && (#[trigger] rungs[i]).eq_spec(&t);
    lemma_first_match(rungs, t, i);
}

/// Below any match there is a first one.
proof fn lemma_first_match<T: Eq>(rungs: Seq<T>, t: T, i: int)
    requires
        0 <= i < rungs.len(),
        rungs[i].eq_spec(&t),
    ensures
        is_position(rungs, t, position(rungs, t)),
    decreases i,
{
    if exists|j: int| 0 <= j < i && (#[trigger] rungs[j]).eq_spec(&t) {
        let j = choose|j: int| 0 <= j < i && (#[trigger] rungs[j]).eq_spec(&t);
        lemma_first_match(rungs, t, j);
    } else {
        lemma_position(rungs, t, i);
    }
}

/// On a ladder any index whose rung equals `t` is the position of `t`.
pub proof fn lemma_position_is<T: Eq>(rungs: Seq<T>, t: T, i: int)
    requires
        lawful_eq::<T>(),
        distinct(rungs),
        0 <= i < rungs.len(),
        rungs[i].eq_spec(&t),
    ensures
        on_ladder(rungs, t),
        position(rungs, t) == i,
{
    lemma_has_position(rungs, t);
    let p = position(rungs, t);
    assert(rungs[i].eq_spec(&rungs[p]));
    assert(rungs[p].eq_spec(&rungs[i]));
}

/// A ladder and its positions are inverse to each other: `t` has position `i` where
/// and only where the rung at `i` equals it, and each rung has the position it was
/// declared at, the floor the first and the top the last.
pub proof fn lemma_positions_and_rungs_are_inverse<T: Eq>(rungs: Seq<T>, t: T, i: int)
    requires
        lawful_eq::<T>(),
        distinct(rungs),
    ensures
        on_ladder(rungs, t) && position(rungs, t) == i <==> 0 <= i < rungs.len()
            && rungs[i].eq_spec(&t),
        0 <= i < rungs.len() ==> on_ladder(rungs, rungs[i]) && position(rungs, rungs[i]) == i,
        rungs.len() > 0 ==> position(rungs, rungs.first()) == 0,
        rungs.len() > 0 ==> position(rungs, rungs.last()) == rungs.len() - 1,
{
    if on_ladder(rungs, t) {
        lemma_has_position(rungs, t);
    }
    if 0 <= i < rungs.len() {
        if rungs[i].eq_spec(&t) {
            lemma_position_is(rungs, t, i);
        }
        lemma_position_is(rungs, rungs[i], i);
    }
    if rungs.len() > 0 {
        lemma_position_is(rungs, rungs[0], 0);
        lemma_position_is(rungs, rungs.last(), rungs.len() - 1);
    }
}

/// Stepping moves by one position and saturates: down at the floor, up at the
/// ceiling, which is never exceeded. Every step from a rung ends on a rung.
pub proof fn lemma_steps_stay_on_the_ladder<T: Eq>(rungs: Seq<T>, t: T, ceiling: T)
    requires
        lawful_eq::<T>(),
        distinct(rungs),
        on_ladder(rungs, t),
        on_ladder(rungs, ceiling),
    ensures
        on_ladder(rungs, cheaper(rungs, t)),
        position(rungs, cheaper(rungs, t)) == vstd::math::max(position(rungs, t) - 1, 0),
        on_ladder(rungs, richer(rungs, t, ceiling)),
        position(rungs, richer(rungs, t, ceiling)) == vstd::math::min(
            position(rungs, t) + 1,
            position(rungs, ceiling),
        ),
        position(rungs, richer(rungs, t, ceiling)) <= position(rungs, ceiling),
{
    lemma_has_position(rungs, t);
    lemma_has_position(rungs, ceiling);
    let p = position(rungs, t);
    let cap = position(rungs, ceiling);
    let down = vstd::math::max(p - 1, 0);
    let up = vstd::math::min(p + 1, cap);
    lemma_position_is(rungs, rungs[down], down);
    lemma_position_is(rungs, rungs[up], up);
}

/// A value that is not on the ladder, or a ceiling that is not, gives the floor:
/// quality is never granted on the strength of a value that cannot be placed.
pub proof fn lemma_unplaced_values_give_the_floor<T: Eq>(rungs: Seq<T>, t: T, ceiling: T)
    ensures
        !on_ladder(rungs, t) ==> cheaper(rungs, t) == rungs[0],
        !on_ladder(rungs, t) ==> richer(rungs, t, ceiling) == rungs[0],
        !on_ladder(rungs, ceiling) ==> richer(rungs, t, ceiling) == rungs[0],
{
}

/// The floor is a fixed point of stepping down, and a ceiling of stepping up to it.
pub proof fn lemma_bounds_are_fixed_points<T: Eq>(rungs: Seq<T>, ceiling: T)
    requires
        lawful_eq::<T>(),
        distinct(rungs),
        on_ladder(rungs, ceiling),
    ensures
        cheaper(rungs, rungs[0]) == rungs[0],
        richer(rungs, ceiling, ceiling).eq_spec(&ceiling),
{
    lemma_has_position(rungs, ceiling);
    lemma_position_is(rungs, rungs[0], 0);
}

/// Away from the floor, and not above the ceiling, down then up comes back to where
/// it started.
pub proof fn lemma_down_then_up<T: Eq>(rungs: Seq<T>, t: T, ceiling: T)
    requires
        lawful_eq::<T>(),
        distinct(rungs),
        on_ladder(rungs, t),
        on_ladder(rungs, ceiling),
        0 < position(rungs, t) <= position(rungs, ceiling),
    ensures
        richer(rungs, cheaper(rungs, t), ceiling) == rungs[position(rungs, t)],
        richer(rungs, cheaper(rungs, t), ceiling).eq_spec(&t),
{
    lemma_has_position(rungs, t);
    lemma_steps_stay_on_the_ladder(rungs, t, ceiling);
}

/// Below the ceiling, up then down comes back to where it started.
pub proof fn lemma_up_then_down<T: Eq>(rungs: Seq<T>, t: T, ceiling: T)
    requires
        lawful_eq::<T>(),
        distinct(rungs),
        on_ladder(rungs, t),
        on_ladder(rungs, ceiling),
        position(rungs, t) < position(rungs, ceiling),
    ensures
        cheaper(rungs, richer(rungs, t, ceiling)) == rungs[position(rungs, t)],
        cheaper(rungs, richer(rungs, t, ceiling)).eq_spec(&t),
{
    lemma_has_position(rungs, t);
    lemma_steps_stay_on_the_ladder(rungs, t, ceiling);
}

/// At most one pair of indices is the first repetition, so [`Ladder::parse`] has one
/// error to report.
pub proof fn lemma_first_duplicate_is_unique<T: Eq>(
    rungs: Seq<T>,
    first: int,
    second: int,
    first2: int,
    second2: int,
)
    requires
        is_first_duplicate(rungs, first, second),
        is_first_duplicate(rungs, first2, second2),
    ensures
        first == first2,
        second == second2,
{
    assert(rungs[first].eq_spec(&rungs[second]));
    assert(rungs[first2].eq_spec(&rungs[second2]));
}

/// `lawful_eq` asks for no more than that `==` answers as `eq_spec` says and that this
/// is an equivalence.
pub proof fn lemma_any_equivalence_is_lawful<T: Eq>()
    requires
        T::obeys_eq_spec(),
        forall|x: T| #[trigger] x.eq_spec(&x),
        forall|x: T, y: T| #[trigger] x.eq_spec(&y) ==> y.eq_spec(&x),
        forall|x: T, y: T, z: T| #[trigger]
            x.eq_spec(&y) && #[trigger] y.eq_spec(&z) ==> x.eq_spec(&z),
    ensures
        lawful_eq::<T>(),
{
}

/// A sequence has no repetition where no rung equals a later one; a value is on the
/// ladder where some rung equals it. A ladder is well-formed if it has two rungs or
/// more and no repetition.
pub proof fn lemma_ladders_are_distinct_rungs<T: Copy + Eq + 'static>(ladder: Ladder<T>, t: T)
    ensures
        distinct(ladder@) <==> forall|i: int, j: int|
            #![trigger ladder@[i], ladder@[j]]
            0 <= i < j < ladder@.len() ==> !ladder@[i].eq_spec(&ladder@[j]),
        on_ladder(ladder@, t) <==> exists|i: int|
            #![trigger ladder@[i]]
            0 <= i < ladder@.len() && ladder@[i].eq_spec(&t),
        ladder@.len() >= 2 && distinct(ladder@) ==> ladder.wf(),
        ladder.wf() ==> ladder@.len() >= 2,
        ladder.wf() && lawful_eq::<T>() ==> distinct(ladder@),
{
}

/// The first index of a value, and the first repetition, in terms of what equals what.
pub proof fn lemma_first_means_first<T: Eq>(rungs: Seq<T>, t: T, i: int, first: int, second: int)
    ensures
        is_position(rungs, t, i) <==> {
            &&& 0 <= i < rungs.len()
            &&& rungs[i].eq_spec(&t)
            &&& forall|j: int| #![trigger rungs[j]] 0 <= j < i ==> !rungs[j].eq_spec(&t)
        },
        is_first_duplicate(rungs, first, second) <==> {
            &&& 0 <= first < second < rungs.len()
            &&& rungs[first].eq_spec(&rungs[second])
            &&& forall|j: int|
                #![trigger rungs[j]]
                first < j < second ==> !rungs[first].eq_spec(&rungs[j])
            &&& forall|i: int, j: int|
                #![trigger rungs[i], rungs[j]]
                0 <= i < first && i < j < rungs.len() ==> !rungs[i].eq_spec(&rungs[j])
        },
{
}

/// Stepping down from the rung at `i` leads to the rung at `i - 1`, and from the floor,
/// or from a value that no rung equals, to the floor.
pub proof fn lemma_stepping_down<T: Eq>(rungs: Seq<T>, t: T)
    requires
        lawful_eq::<T>(),
        distinct(rungs),
    ensures
        forall|i: int|
            #![trigger rungs[i]]
            0 <= i < rungs.len() && rungs[i].eq_spec(&t) ==> cheaper(rungs, t) == rungs[if i == 0 {
                0
            } else {
                i - 1
            }],
        (forall|i: int| #![trigger rungs[i]] 0 <= i < rungs.len() ==> !rungs[i].eq_spec(&t))
            ==> cheaper(rungs, t) == rungs[0],
{
    assert forall|i: int|
        #![trigger rungs[i]]
        0 <= i < rungs.len() && rungs[i].eq_spec(&t) implies cheaper(rungs, t) == rungs[if i == 0 {
        0
    } else {
        i - 1
    }] by {
        lemma_position_is(rungs, t, i);
    }
}

/// Stepping up from the rung at `i` under a ceiling at `cap` leads to the rung at
/// `i + 1` if that is not above the ceiling, and to the ceiling's rung otherwise; from
/// a value, or under a ceiling, that no rung equals, it leads to the floor.
pub proof fn lemma_stepping_up<T: Eq>(rungs: Seq<T>, t: T, ceiling: T)
    requires
        lawful_eq::<T>(),
        distinct(rungs),
    ensures
        forall|i: int, cap: int|
            #![trigger rungs[i], rungs[cap]]
            0 <= i < rungs.len() && 0 <= cap < rungs.len() && rungs[i].eq_spec(&t)
                && rungs[cap].eq_spec(&ceiling) ==> richer(rungs, t, ceiling) == rungs[if i < cap {
                i + 1
            } else {
                cap
            }],
        (forall|i: int| #![trigger rungs[i]] 0 <= i < rungs.len() ==> !rungs[i].eq_spec(&t))
            || (forall|i: int|
            #![trigger rungs[i]]
            0 <= i < rungs.len() ==> !rungs[i].eq_spec(&ceiling)) ==> richer(rungs, t, ceiling)
            == rungs[0],
{
    assert forall|i: int, cap: int|
        #![trigger rungs[i], rungs[cap]]
        0 <= i < rungs.len() && 0 <= cap < rungs.len() && rungs[i].eq_spec(&t)
            && rungs[cap].eq_spec(&ceiling) implies richer(rungs, t, ceiling) == rungs[if i < cap {
        i + 1
    } else {
        cap
    }] by {
        lemma_position_is(rungs, t, i);
        lemma_position_is(rungs, ceiling, cap);
    }
}

/// Decimal notation: a number below ten is its digit, and `10 * n + d` is written as
/// `n` followed by the digit `d`.
pub proof fn lemma_decimal_notation(n: nat, d: nat)
    requires
        d < 10,
    ensures
        decimal(d) == seq![
            if d == 0 { '0' } else if d == 1 { '1' } else if d == 2 { '2' } else if d == 3 { '3' }
            else if d == 4 { '4' } else if d == 5 { '5' } else if d == 6 { '6' }
            else if d == 7 { '7' } else if d == 8 { '8' } else { '9' },
        ],
        n > 0 ==> decimal(10 * n + d) == decimal(n) + decimal(d),
{
    if n > 0 {
        assert((10 * n + d) / 10 == n && (10 * n + d) % 10 == d);
    }
}

/// The texts of the errors.
pub proof fn lemma_error_texts(first: usize, second: usize)
    ensures
        LadderError::TooShort.text() == "a ladder needs at least two rungs to have a step"@,
        LadderError::CeilingNotOnLadder.text() == "the ceiling is not a rung on this ladder"@,
        (LadderError::Duplicate { first, second }).text() == "duplicate rung at indices "@
            + decimal(first as nat) + " and "@ + decimal(second as nat),
{
}

} // verus!
