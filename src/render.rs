use vstd::prelude::*;

use crate::animation::MaybeTerminatingAnimation;
use crate::backend::Backend;
use crate::frame::{dark, Frame};

verus! {

/// The animation state before drawing at `now`: restarted first if it has ended.
pub open spec fn restarted_if_ended<A: MaybeTerminatingAnimation>(animation: A, now: u64) -> A {
    if animation.maybe_ended_spec(now) {
        animation.reset_spec(now)
    } else {
        animation
    }
}

/// Owns one frame buffer and one animation, and hands each new frame to a backend.
pub struct Driver<Anim, B> {
    animation: Anim,
    backend: B,
    frame: Frame,
}

impl<A: MaybeTerminatingAnimation, B: Backend> Driver<A, B> {
    /// The animation being played.
    pub closed spec fn animation(&self) -> A {
        self.animation
    }

    /// Where frames are shown.
    pub closed spec fn backend(&self) -> B {
        self.backend
    }

    /// The contents of the frame buffer.
    pub closed spec fn frame_spec(&self) -> Seq<u8> {
        self.frame@
    }

    /// The frame buffer holds one value per voxel.
    pub closed spec fn wf(&self) -> bool {
        self.frame.wf()
    }

    /// A driver with a dark frame buffer.
    pub fn new(animation: A, backend: B) -> (r: Self)
        ensures
            r.wf(),
            r.animation() == animation,
            r.backend() == backend,
            r.frame_spec() == dark(),
    {
        let frame = Frame::new();
        Driver { animation, backend, frame }
    }

    /// Resets the animation.
    pub fn reset(&mut self, now: u64)
        requires
            old(self).wf(),
        ensures
            final(self).wf(),
            final(self).animation() == old(self).animation().reset_spec(now),
            final(self).backend() == old(self).backend(),
            final(self).frame_spec() == old(self).frame_spec(),
    {
        self.animation.reset(now);
    }

    /// One step at time `now`: restarts the animation if it has ended, lets it
    /// draw the next frame, then shows the frame on the backend.
    pub fn step(&mut self, now: u64)
        requires
            old(self).wf(),
        ensures
            final(self).wf(),
            (final(self).animation(), final(self).frame_spec()) == restarted_if_ended(
                old(self).animation(),
                now,
            ).step_spec(old(self).frame_spec(), now),
            final(self).backend() == old(self).backend().display_spec(final(self).frame_spec()),
    {
        if self.animation.maybe_ended(now) {
            self.animation.reset(now);
        }
        self.animation.next_frame(&mut self.frame, now);
        self.backend.display_frame(&self.frame);
    }

    /// The frame buffer.
    pub fn frame(&self) -> (r: &Frame)
        requires
            self.wf(),
        ensures
            r.wf(),
            r@ == self.frame_spec(),
    {
        &self.frame
    }
}

} // verus!
