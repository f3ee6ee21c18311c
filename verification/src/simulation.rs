//! The state of a running simulation: the field at the present step, a
//! second field of the same shape that the next step is computed into, and
//! the number of steps taken so far. After each step the two fields change
//! roles, so exactly one of them is the present one at any time.

use vstd::prelude::*;
use crate::color::Rgb;
use crate::error::GridError;
use crate::field::{Field, is_grid};
use crate::frame::{Frame, frame_bytes, frame_height, frame_width};
use crate::render::{fits, frame_fits, is_painting, render};
use crate::solver::{
    Stencil, advance, combine_keeps_within, is_step, is_within, lemma_step_keeps_bound,
    source_is_within,
};

verus! {

/// Two buffers and a step counter.
pub struct Simulation<T> {
    current: Field<T>,
    next: Field<T>,
    steps: u64,
}

/// `end` is what `count` steps make of `start`, the first of them being
/// step number `first_step`: there is a field after each step, and each is
/// one step after the one before it.
pub open spec fn is_evolution<T, B: Fn(usize, usize, u64) -> T, C: Fn(Stencil<T>) -> T>(
    start: Seq<Seq<T>>,
    end: Seq<Seq<T>>,
    first_step: u64,
    count: nat,
    boundary: B,
    combine: C,
) -> bool
    decreases count,
{
    if count == 0 {
        end == start
    } else {
        &&& first_step + count - 1 <= u64::MAX
        &&& exists|mid: Seq<Seq<T>>|
            is_evolution(start, mid, first_step, (count - 1) as nat, boundary, combine)
                && #[trigger] is_step(
                mid,
                end,
                (first_step + count - 1) as u64,
                boundary,
                combine,
            )
    }
}

/// A bound that the boundary source respects and that one application of
/// `combine` keeps is kept however many steps are taken: a field that starts
/// inside it never leaves it.
pub proof fn lemma_evolution_keeps_bound<
    T,
    B: Fn(usize, usize, u64) -> T,
    C: Fn(Stencil<T>) -> T,
>(
    start: Seq<Seq<T>>,
    end: Seq<Seq<T>>,
    height: nat,
    width: nat,
    first_step: u64,
    count: nat,
    boundary: B,
    combine: C,
    inside: spec_fn(T) -> bool,
)
    requires
        is_grid(start, height, width),
        is_evolution(start, end, first_step, count, boundary, combine),
        is_within(start, inside),
        source_is_within(boundary, inside),
        combine_keeps_within(combine, inside),
    ensures
        is_grid(end, height, width),
        is_within(end, inside),
    decreases count,
{
    if count > 0 {
        let last = (first_step + count - 1) as u64;
        let mid = choose|mid: Seq<Seq<T>>|
            is_evolution(start, mid, first_step, (count - 1) as nat, boundary, combine)
                && #[trigger] is_step(mid, end, last, boundary, combine);
        lemma_evolution_keeps_bound(
            start,
            mid,
            height,
            width,
            first_step,
            (count - 1) as nat,
            boundary,
            combine,
            inside,
        );
        lemma_step_keeps_bound(mid, end, height, width, last, boundary, combine, inside);
    }
}

impl<T> Simulation<T> {
    /// Both buffers are well formed and have one shape.
    pub closed spec fn wf(self) -> bool {
        &&& self.current.wf()
        &&& self.next.wf()
        &&& self.next.spec_height() == self.current.spec_height()
        &&& self.next.spec_width() == self.current.spec_width()
    }

    /// The field at the present step.
    pub closed spec fn grid(self) -> Seq<Seq<T>> {
        self.current@
    }

    /// The number of rows of the field.
    pub closed spec fn spec_height(self) -> nat {
        self.current.spec_height()
    }

    /// The number of columns of the field.
    pub closed spec fn spec_width(self) -> nat {
        self.current.spec_width()
    }

    /// The number of steps taken so far.
    pub closed spec fn spec_steps(self) -> u64 {
        self.steps
    }

    /// A simulation at step 0 whose present field is `current`. What `next`
    /// holds is of no account, but it must have the shape of `current`:
    /// where it has not, the error says so.
    pub fn new(current: Field<T>, next: Field<T>) -> (made: Result<Simulation<T>, GridError>)
        requires
            current.wf(),
            next.wf(),
        ensures
            made is Ok <==> next.spec_height() == current.spec_height() && next.spec_width()
                == current.spec_width(),
            made matches Ok(sim) ==> {
                &&& sim.wf()
                &&& sim.grid() == current@
                &&& sim.spec_height() == current.spec_height()
                &&& sim.spec_width() == current.spec_width()
                &&& sim.spec_steps() == 0
            },
            made matches Err(e) ==> e == GridError::DimensionMismatch,
    {
        if current.same_shape(&next) {
            Ok(Simulation { current, next, steps: 0 })
        } else {
            Err(GridError::DimensionMismatch)
        }
    }

    /// The field at the present step.
    pub fn current(&self) -> (field: &Field<T>)
        requires
            self.wf(),
        ensures
            field.wf(),
            field@ == self.grid(),
            field.spec_height() == self.spec_height(),
            field.spec_width() == self.spec_width(),
            is_grid(self.grid(), self.spec_height(), self.spec_width()),
    {
        proof {
            self.current.lemma_view_is_grid();
        }
        &self.current
    }

    /// The number of steps taken so far.
    pub fn steps(&self) -> (steps: u64)
        ensures
            steps == self.spec_steps(),
    {
        self.steps
    }
}

impl<T: Copy> Simulation<T> {
    /// Takes one step: computes the next field from the present one and
    /// makes it the present one. The boundary source is asked for the step
    /// number that the simulation had before the call.
    pub fn step<B: Fn(usize, usize, u64) -> T, C: Fn(Stencil<T>) -> T>(
        &mut self,
        boundary: &B,
        combine: &C,
    )
        requires
            old(self).wf(),
            old(self).spec_steps() < u64::MAX,
            forall|x: usize, y: usize|
                x < old(self).spec_width() && y < old(self).spec_height() ==> boundary.requires(
                    (x, y, old(self).spec_steps()),
                ),
            forall|s: Stencil<T>| combine.requires((s,)),
        ensures
            final(self).wf(),
            final(self).spec_height() == old(self).spec_height(),
            final(self).spec_width() == old(self).spec_width(),
            final(self).spec_steps() == old(self).spec_steps() + 1,
            is_step(
                old(self).grid(),
                final(self).grid(),
                old(self).spec_steps(),
                *boundary,
                *combine,
            ),
    {
        advance(&self.current, &mut self.next, self.steps, boundary, combine);
        std::mem::swap(&mut self.current, &mut self.next);
        self.steps = self.steps + 1;
    }

    /// Takes `count` steps, one after the other.
    pub fn run<B: Fn(usize, usize, u64) -> T, C: Fn(Stencil<T>) -> T>(
        &mut self,
        count: u64,
        boundary: &B,
        combine: &C,
    )
        requires
            old(self).wf(),
            old(self).spec_steps() + count <= u64::MAX,
            forall|x: usize, y: usize, n: u64|
                x < old(self).spec_width() && y < old(self).spec_height() && old(
                    self,
                ).spec_steps() <= n < old(self).spec_steps() + count ==> boundary.requires(
                    (x, y, n),
                ),
            forall|s: Stencil<T>| combine.requires((s,)),
        ensures
            final(self).wf(),
            final(self).spec_height() == old(self).spec_height(),
            final(self).spec_width() == old(self).spec_width(),
            final(self).spec_steps() == old(self).spec_steps() + count,
            is_evolution(
                old(self).grid(),
                final(self).grid(),
                old(self).spec_steps(),
                count as nat,
                *boundary,
                *combine,
            ),
    {
        let mut done: u64 = 0;
        while done < count
            invariant
                done <= count,
                self.wf(),
                self.spec_height() == old(self).spec_height(),
                self.spec_width() == old(self).spec_width(),
                self.spec_steps() == old(self).spec_steps() + done,
                old(self).spec_steps() + count <= u64::MAX,
                forall|x: usize, y: usize, n: u64|
                    x < old(self).spec_width() && y < old(self).spec_height() && old(
                        self,
                    ).spec_steps() <= n < old(self).spec_steps() + count ==> boundary.requires(
                        (x, y, n),
                    ),
                forall|s: Stencil<T>| combine.requires((s,)),
                is_evolution(
                    old(self).grid(),
                    self.grid(),
                    old(self).spec_steps(),
                    done as nat,
                    *boundary,
                    *combine,
                ),
            decreases count - done,
        {
            let ghost before = self.grid();
            self.step(boundary, combine);
            proof {
                assert(is_step(
                    before,
                    self.grid(),
                    (old(self).spec_steps() + (done + 1) - 1) as u64,
                    *boundary,
                    *combine,
                ));
            }
            done = done + 1;
        }
    }

    /// Takes `steps_per_frame` steps and paints the field that they give
    /// into `frame`. The frame is looked at first: where it does not take
    /// the field, no step is taken, nothing is written and the error says
    /// so.
    pub fn produce_next_frame<
        B: Fn(usize, usize, u64) -> T,
        C: Fn(Stencil<T>) -> T,
        F: Fn(T) -> Rgb,
    >(
        &mut self,
        frame: &mut Frame,
        steps_per_frame: u64,
        boundary: &B,
        combine: &C,
        to_color: &F,
    ) -> (done: Result<(), GridError>)
        requires
            old(self).wf(),
            old(self).spec_steps() + steps_per_frame <= u64::MAX,
            forall|x: usize, y: usize, n: u64|
                x < old(self).spec_width() && y < old(self).spec_height() && old(
                    self,
                ).spec_steps() <= n < old(self).spec_steps() + steps_per_frame
                    ==> boundary.requires((x, y, n)),
            forall|s: Stencil<T>| combine.requires((s,)),
            forall|value: T| to_color.requires((value,)),
        ensures
            final(self).wf(),
            final(self).spec_height() == old(self).spec_height(),
            final(self).spec_width() == old(self).spec_width(),
            frame_width(*final(frame)) == frame_width(*old(frame)),
            frame_height(*final(frame)) == frame_height(*old(frame)),
            done is Ok <==> frame_fits(
                old(self).spec_height(),
                old(self).spec_width(),
                frame_height(*old(frame)) as nat,
                frame_width(*old(frame)) as nat,
                frame_bytes(*old(frame)).len(),
            ),
            done is Ok ==> {
                &&& final(self).spec_steps() == old(self).spec_steps() + steps_per_frame
                &&& is_evolution(
                    old(self).grid(),
                    final(self).grid(),
                    old(self).spec_steps(),
                    steps_per_frame as nat,
                    *boundary,
                    *combine,
                )
                &&& is_painting(
                    final(self).grid(),
                    old(self).spec_height(),
                    old(self).spec_width(),
                    *to_color,
                    frame_bytes(*old(frame)),
                    frame_bytes(*final(frame)),
                )
            },
            done is Err ==> {
                &&& done == Err::<(), GridError>(GridError::DimensionMismatch)
                &&& final(self).spec_steps() == old(self).spec_steps()
                &&& final(self).grid() == old(self).grid()
                &&& frame_bytes(*final(frame)) == frame_bytes(*old(frame))
            },
    {
        if !fits(&self.current, frame) {
            return Err(GridError::DimensionMismatch);
        }
        self.run(steps_per_frame, boundary, combine);
        render(&self.current, frame, to_color)
    }
}

} // verus!
