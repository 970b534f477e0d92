use vstd::prelude::*;

verus! {

/// Something that can take a hit and be repaired.
pub trait Hittable {
    /// Whether the value currently counts as hit.
    spec fn hit_state(&self) -> bool;

    /// Marks the value as hit.
    fn hit(&mut self)
        ensures
            final(self).hit_state(),
    ;

    /// Clears the hit mark.
    fn repair(&mut self)
        ensures
            !final(self).hit_state(),
    ;

    /// Reports the hit mark.
    fn is_hit(&self) -> (hit: bool)
        ensures
            hit == self.hit_state(),
    ;
}

} // verus!
