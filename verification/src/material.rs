//! The two materials whose effect on a ray needs no arithmetic.

use vstd::prelude::*;

verus! {

/// The material of a record that has been hit by nothing yet. It absorbs
/// every ray.
#[derive(Clone, Copy, PartialEq, Eq, Structural, Debug)]
pub struct DefaultMaterial {}

impl DefaultMaterial {
    /// Scatters `r_in`: there is no scattered ray.
    pub fn scatter<R>(&self, r_in: R) -> (scattered: Option<R>)
        ensures
            scattered.is_none(),
    {
        None
    }
}

impl Default for DefaultMaterial {
    fn default() -> (m: DefaultMaterial)
        ensures
            m == (DefaultMaterial {  }),
    {
        DefaultMaterial {  }
    }
}

/// The material of a brick: a ray passes through it as it came, with
/// nothing taken from its colour.
#[derive(Clone, Copy, PartialEq, Eq, Structural, Debug)]
pub struct Transparent {}

impl Transparent {
    /// Scatters `r_in`: the scattered ray is `r_in` itself.
    pub fn scatter<R>(&self, r_in: R) -> (scattered: Option<R>)
        ensures
            scattered == Some(r_in),
    {
        Some(r_in)
    }
}

} // verus!
