//! Rational functions given by their zeros and poles.
//!
//! A `Mero` describes the function `z -> factor * prod (z - zero) * prod 1 / (z - pole)`.
//! It is generic in the type `C` of a point of the plane and leaves the
//! arithmetic of `C` to its caller: evaluation is a fold over the zeros, then
//! over the poles, with one step function for each.

use vstd::prelude::*;

verus! {

/// A leading factor, zeros and poles.
pub struct Mero<C> {
    /// The factor that the product starts from.
    pub factor: C,
    /// The zeros, in the order in which they were added.
    pub zeros: Vec<C>,
    /// The poles, in the order in which they were added.
    pub poles: Vec<C>,
}

/// A button of a pointing device.
#[derive(Clone, Copy, Debug, PartialEq, Eq, Structural)]
pub enum PointerButton {
    Left,
    Right,
    Middle,
    Other,
}

/// A change to a `Mero`.
#[derive(Clone, Copy, Debug, PartialEq, Eq, Structural)]
pub enum Edit {
    AddZero,
    AddPole,
}

/// The edit that a pointer event asks for, if any: releasing the left button
/// adds a zero, releasing the right button adds a pole, and nothing else
/// edits.
pub open spec fn edit_of(button: PointerButton, released: bool) -> Option<Edit> {
    if !released {
        None
    } else {
        match button {
            PointerButton::Left => Some(Edit::AddZero),
            PointerButton::Right => Some(Edit::AddPole),
            _ => None,
        }
    }
}

/// Decides what a pointer event does to a `Mero`.
pub fn click_edit(button: PointerButton, released: bool) -> (edit: Option<Edit>)
    ensures
        edit == edit_of(button, released),
{
    if !released {
        return None;
    }
    match button {
        PointerButton::Left => Some(Edit::AddZero),
        PointerButton::Right => Some(Edit::AddPole),
        _ => None,
    }
}

/// Whether `trace` lists what a fold of `step` over `points` holds from
/// `start` on: `start` first, then the value after each point.
pub open spec fn fold_trace<C, F: Fn(C, C) -> C>(step: F, start: C, points: Seq<C>, trace: Seq<C>) -> bool {
    &&& trace.len() == points.len() + 1
    &&& trace[0] == start
    &&& forall|k: int|
        #![trigger points[k]]
        0 <= k < points.len() ==> call_ensures(step, (trace[k], points[k]), trace[k + 1])
}

/// Whether `value` can come out of folding `step` over `points`, from
/// `start` on and in the order of `points`.
pub open spec fn folds_to<C, F: Fn(C, C) -> C>(step: F, start: C, points: Seq<C>, value: C) -> bool {
    exists|trace: Seq<C>| #[trigger] fold_trace(step, start, points, trace) && trace.last() == value
}

/// Whether `step` may be called on every point of `points`, whatever has
/// been accumulated so far.
pub open spec fn steps_through<C, F: Fn(C, C) -> C>(step: F, points: Seq<C>) -> bool {
    forall|so_far: C, k: int|
        #![trigger call_requires(step, (so_far, points[k]))]
        0 <= k < points.len() ==> call_requires(step, (so_far, points[k]))
}

/// Whether `step` returns one value for each pair of arguments.
pub open spec fn single_valued<C, F: Fn(C, C) -> C>(step: F) -> bool {
    forall|a: C, b: C, first: C, second: C|
        call_ensures(step, (a, b), first) && call_ensures(step, (a, b), second) ==> first
            == second
}

/// Whether `value` can come out of evaluating the function: the factor,
/// folded over the zeros by `times_zero` and then over the poles by
/// `times_pole`.
pub open spec fn evaluates_to<C, Z: Fn(C, C) -> C, P: Fn(C, C) -> C>(
    factor: C,
    zeros: Seq<C>,
    poles: Seq<C>,
    times_zero: Z,
    times_pole: P,
    value: C,
) -> bool {
    exists|numerator: C|
        #[trigger] folds_to(times_zero, factor, zeros, numerator) && folds_to(
            times_pole,
            numerator,
            poles,
            value,
        )
}

/// Folds `step` over `points`, from `start` on.
fn fold<C: Copy, F: Fn(C, C) -> C>(step: &F, start: C, points: &Vec<C>) -> (value: C)
    requires
        steps_through(*step, points@),
    ensures
        folds_to(*step, start, points@, value),
{
    let mut value: C = start;
    let mut n: usize = 0;
    let ghost mut trace: Seq<C> = seq![start];
    while n < points.len()
        invariant
            steps_through(*step, points@),
            n <= points@.len(),
            fold_trace(*step, start, points@.take(n as int), trace),
            trace.last() == value,
        decreases points@.len() - n,
    {
        let ghost before = trace;
        let point = points[n];
        assert(point == points@[n as int]);
        value = step(value, point);
        proof {
            trace = before.push(value);
            let taken = points@.take(n + 1);
            assert forall|k: int| #![trigger taken[k]] 0 <= k < taken.len() implies call_ensures(
                *step,
                (trace[k], taken[k]),
                trace[k + 1],
            ) by {
                if k < n {
                    assert(points@.take(n as int)[k] == taken[k]);
                }
            }
        }
        n += 1;
    }
    assert(points@.take(n as int) =~= points@);
    value
}

impl<C> Mero<C> {
    /// A function without zeros and poles: the constant `factor`.
    pub fn new(factor: C) -> (mero: Mero<C>)
        ensures
            mero.factor == factor,
            mero.zeros@ == Seq::<C>::empty(),
            mero.poles@ == Seq::<C>::empty(),
    {
        Mero { factor, zeros: Vec::new(), poles: Vec::new() }
    }

    /// Appends a zero or a pole at `at`.
    pub fn apply(&mut self, edit: Edit, at: C)
        ensures
            final(self).factor == old(self).factor,
            final(self).zeros@ == if edit == Edit::AddZero {
                old(self).zeros@.push(at)
            } else {
                old(self).zeros@
            },
            final(self).poles@ == if edit == Edit::AddPole {
                old(self).poles@.push(at)
            } else {
                old(self).poles@
            },
    {
        match edit {
            Edit::AddZero => self.zeros.push(at),
            Edit::AddPole => self.poles.push(at),
        }
    }

    /// Takes a pointer event at `at`: applies the edit that the event asks
    /// for, and tells whether there was one. A function that has changed is
    /// to be drawn again.
    pub fn click(&mut self, button: PointerButton, released: bool, at: C) -> (changed: bool)
        ensures
            changed == (edit_of(button, released) is Some),
            final(self).factor == old(self).factor,
            final(self).zeros@ == if edit_of(button, released) == Some(Edit::AddZero) {
                old(self).zeros@.push(at)
            } else {
                old(self).zeros@
            },
            final(self).poles@ == if edit_of(button, released) == Some(Edit::AddPole) {
                old(self).poles@.push(at)
            } else {
                old(self).poles@
            },
    {
        match click_edit(button, released) {
            Some(edit) => {
                self.apply(edit, at);
                true
            },
            None => false,
        }
    }
}

/// Evaluates the function that `ps` describes.
///
/// `times_zero(v, p)` multiplies `v` by the factor that the zero `p`
/// contributes, `times_pole(v, p)` by the factor that the pole `p`
/// contributes; the point of evaluation is theirs to know. The zeros are
/// taken before the poles, each list in its order.
pub fn poly<C: Copy, Z: Fn(C, C) -> C, P: Fn(C, C) -> C>(ps: &Mero<C>, times_zero: Z, times_pole: P) -> (value: C)
    requires
        steps_through(times_zero, ps.zeros@),
        steps_through(times_pole, ps.poles@),
    ensures
        evaluates_to(ps.factor, ps.zeros@, ps.poles@, times_zero, times_pole, value),
        ps.zeros@.len() == 0 && ps.poles@.len() == 0 ==> value == ps.factor,
{
    let numerator = fold(&times_zero, ps.factor, &ps.zeros);
    let value = fold(&times_pole, numerator, &ps.poles);
    value
}

/// Two traces of one fold with a single-valued step agree at every place.
proof fn lemma_traces_agree<C, F: Fn(C, C) -> C>(
    step: F,
    start: C,
    points: Seq<C>,
    first: Seq<C>,
    second: Seq<C>,
    k: int,
)
    requires
        single_valued(step),
        fold_trace(step, start, points, first),
        fold_trace(step, start, points, second),
        0 <= k <= points.len(),
    ensures
        first[k] == second[k],
    decreases k,
{
    if k > 0 {
        lemma_traces_agree(step, start, points, first, second, k - 1);
        let point = points[k - 1];
        assert(call_ensures(step, (first[k - 1], point), first[k - 1 + 1]));
        assert(call_ensures(step, (second[k - 1], point), second[k - 1 + 1]));
    }
}

/// Folding a single-valued step has one outcome.
pub proof fn lemma_fold_single_valued<C, F: Fn(C, C) -> C>(
    step: F,
    start: C,
    points: Seq<C>,
    first: C,
    second: C,
)
    requires
        single_valued(step),
        folds_to(step, start, points, first),
        folds_to(step, start, points, second),
    ensures
        first == second,
{
    let a = choose|trace: Seq<C>| #[trigger]
        fold_trace(step, start, points, trace) && trace.last() == first;
    let b = choose|trace: Seq<C>| #[trigger]
        fold_trace(step, start, points, trace) && trace.last() == second;
    lemma_traces_agree(step, start, points, a, b, points.len() as int);
}

/// Without zeros and poles the function is the constant `factor`: whatever
/// the step functions do, the factor is the one value that evaluation can
/// give.
pub proof fn lemma_constant_without_zeros_and_poles<C, Z: Fn(C, C) -> C, P: Fn(C, C) -> C>(
    factor: C,
    times_zero: Z,
    times_pole: P,
    value: C,
)
    requires
        evaluates_to(factor, Seq::<C>::empty(), Seq::<C>::empty(), times_zero, times_pole, value),
    ensures
        value == factor,
{
}

/// Evaluation is a function of its inputs: with single-valued steps, two
/// evaluations of the same factor, zeros and poles give the same value.
pub proof fn lemma_evaluation_repeatable<C, Z: Fn(C, C) -> C, P: Fn(C, C) -> C>(
    factor: C,
    zeros: Seq<C>,
    poles: Seq<C>,
    times_zero: Z,
    times_pole: P,
    first: C,
    second: C,
)
    requires
        single_valued(times_zero),
        single_valued(times_pole),
        evaluates_to(factor, zeros, poles, times_zero, times_pole, first),
        evaluates_to(factor, zeros, poles, times_zero, times_pole, second),
    ensures
        first == second,
{
    let a = choose|numerator: C|
        #[trigger] folds_to(times_zero, factor, zeros, numerator) && folds_to(
            times_pole,
            numerator,
            poles,
            first,
        );
    let b = choose|numerator: C|
        #[trigger] folds_to(times_zero, factor, zeros, numerator) && folds_to(
            times_pole,
            numerator,
            poles,
            second,
        );
    lemma_fold_single_valued(times_zero, factor, zeros, a, b);
    lemma_fold_single_valued(times_pole, a, poles, first, second);
}

} // verus!
