//! A list of clips, found by index.

use crate::animation::traits::{Animation, AnimationLibrary};
use vstd::prelude::*;

verus! {

pub struct AniLibrary<A: Animation> {
    animations: Vec<A>,
}

impl<A: Animation> View for AniLibrary<A> {
    type V = Seq<A>;

    closed spec fn view(&self) -> Seq<A> {
        self.animations@
    }
}

impl<A: Animation> AniLibrary<A> {
    pub fn new() -> (r: AniLibrary<A>)
        ensures
            r@ == Seq::<A>::empty(),
    {
        AniLibrary { animations: Vec::new() }
    }

    /// Adds a clip; its index is the number of clips added before it.
    pub fn add_animation(&mut self, animation: A)
        ensures
            final(self)@ == old(self)@.push(animation),
    {
        self.animations.push(animation);
    }
}

impl<A: Animation> AnimationLibrary<A> for AniLibrary<A> {
    open spec fn animation(&self, index: int) -> Option<A> {
        if 0 <= index < self@.len() {
            Some(self@[index])
        } else {
            None
        }
    }

    fn get_animation(&self, index: usize) -> (r: Option<&A>) {
        if index >= self.animations.len() {
            None
        } else {
            Some(&self.animations[index])
        }
    }
}

} // verus!
