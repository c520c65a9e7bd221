use vstd::prelude::*;

verus! {

/// Failure of a typed slab object or one of its wire headers.
#[derive(Debug, Clone, Copy, PartialEq, Eq, Structural)]
pub enum TypeError {
    OutOfBounds,
    BadHeader,
    CapacityExceeded,
    InvalidUtf8,
}

impl TypeError {
    /// The text of the error.
    pub open spec fn spec_message(&self) -> Seq<char> {
        match self {
            TypeError::OutOfBounds => "type region out of slab bounds"@,
            TypeError::BadHeader => "invalid type header"@,
            TypeError::CapacityExceeded => "value exceeds reserved capacity"@,
            TypeError::InvalidUtf8 => "stored bytes are not valid utf-8"@,
        }
    }

    pub fn message(&self) -> (r: &'static str) 
        ensures
            r@ == self.spec_message(),
    {
        match self {
            TypeError::OutOfBounds => "type region out of slab bounds",
            TypeError::BadHeader => "invalid type header",
            TypeError::CapacityExceeded => "value exceeds reserved capacity",
            TypeError::InvalidUtf8 => "stored bytes are not valid utf-8",
        }
    }
}

} // verus!
