//! [`HasMapping`]: byte view of an opened resource.

use vstd::prelude::*;

verus! {

/// Types that expose a contiguous mapped byte range while open.
pub trait HasMapping {
    /// The mapped bytes.
    spec fn spec_bytes(&self) -> Seq<u8>;

    fn bytes(&self) -> (r: &[u8])
        ensures
            r@ == self.spec_bytes(),
    ;

    fn bytes_mut(&mut self) -> (r: &mut [u8])
        ensures
            r@ == old(self).spec_bytes(),
            final(self).spec_bytes() == final(r)@,
    ;
}

} // verus!
