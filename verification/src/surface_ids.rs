//! A short list of surfaces, held in place as long as it has one element.

use crate::windowing::surface::SurfaceId;
use vstd::prelude::*;

verus! {

/// A list of the numbers of surfaces in a `smallvec::SmallVec`.
#[verifier::external_body]
pub struct SurfaceIds {
    ids: smallvec::SmallVec<[u64; 1]>,
}

/// The numbers that a list holds, in order.
pub uninterp spec fn listed(ids: SurfaceIds) -> Seq<u64>;

impl SurfaceIds {
    /// `SmallVec::new`: a list that holds nothing.
    #[verifier::external_body]
    pub(crate) fn new() -> (res: Self)
        ensures
            listed(res) == Seq::<u64>::empty(),
    {
        SurfaceIds { ids: smallvec::SmallVec::new() }
    }

    /// `SmallVec::push`: the number comes after those that the list holds.
    #[verifier::external_body]
    pub(crate) fn push(&mut self, id: SurfaceId)
        ensures
            listed(*final(self)) == listed(*old(self)).push(id.0),
    {
        self.ids.push(id.0)
    }

    /// `contains` on the slice of a `SmallVec`: whether the number is one of those that the list
    /// holds.
    #[verifier::external_body]
    pub(crate) fn contains(&self, id: SurfaceId) -> (res: bool)
        ensures
            res == listed(*self).contains(id.0),
    {
        self.ids.contains(&id.0)
    }
}

} // verus!
