//! Blur requests of clients, and what a blurred element draws beneath itself.
use vstd::prelude::*;

use crate::geometry::Rect;

verus! {

/// How a surface asked to be blurred.
#[derive(Clone, Debug)]
pub enum BlurState {
    Unblurred,
    Blurred,
    /// Blur only inside these rectangles.
    PartiallyBlurred(Vec<Rect>),
}

/// What is drawn beneath a blurred element before the element itself.
#[derive(Clone, Copy, Debug, PartialEq, Eq, Structural)]
pub enum BackdropFill {
    Nothing,
    Black,
}

/// A render element together with the blur state of its surface.
#[derive(Clone, Debug)]
pub struct Blurred<E> {
    elem: E,
    blur_state: BlurState,
}

/// Renderers that can draw blurred elements.
pub trait BlurCapableRenderer {}

/// Global data of the blur protocol's manager.
#[derive(Clone, Copy, Debug, PartialEq, Eq, Structural)]
pub struct KdeBlurManagerGlobalData;

impl<E> Blurred<E> {
    pub closed spec fn element(&self) -> E {
        self.elem
    }

    pub closed spec fn state(&self) -> BlurState {
        self.blur_state
    }

    pub fn new(elem: E, blur_state: BlurState) -> (r: Blurred<E>)
        ensures
            r.element() == elem,
            r.state() == blur_state,
    {
        Blurred { elem, blur_state }
    }

    pub fn inner(&self) -> (r: &E)
        ensures
            *r == self.element(),
    {
        &self.elem
    }

    pub fn inner_mut(&mut self) -> (r: &mut E)
        ensures
            *r == old(self).element(),
            final(self).element() == *final(r),
            final(self).state() == old(self).state(),
    {
        &mut self.elem
    }

    /// A fully blurred element is drawn over solid black; region-limited blur is not
    /// supported, so such an element is drawn as if unblurred.
    pub fn backdrop_fill(&self) -> (r: BackdropFill)
        ensures
            r == match self.state() {
                BlurState::Blurred => BackdropFill::Black,
                _ => BackdropFill::Nothing,
            },
    {
        match &self.blur_state {
            BlurState::Blurred => BackdropFill::Black,
            _ => BackdropFill::Nothing,
        }
    }
}

/// The blur state a region request sets: the whole window without a region, the region's
/// rectangles otherwise.
pub fn blur_state_for_region(region: Option<Vec<Rect>>) -> (r: BlurState)
    ensures
        region.is_none() ==> r is Blurred,
        region matches Some(v) ==> r matches BlurState::PartiallyBlurred(w) && w@ == v@,
{
    match region {
        Some(v) => BlurState::PartiallyBlurred(v),
        None => BlurState::Blurred,
    }
}

} // verus!
