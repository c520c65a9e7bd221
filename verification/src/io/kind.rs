//! [`Kind`]: storage family (`ram` / `shm` / `file`) and its url scheme.

use crate::url::{str_is, url_scheme, Url};
use vstd::prelude::*;
use vstd::string::*;

verus! {

/// Backing family for a slab or homogeneous segment.
#[derive(Copy, Clone, Debug, PartialEq, Eq, Hash, Structural)]
pub enum Kind {
    Ram,
    Shm,
    File,
}

impl Kind {
    /// The url scheme of each kind.
    pub open spec fn spec_scheme(self) -> Seq<char> {
        match self {
            Kind::Ram => "ram"@,
            Kind::Shm => "shm"@,
            Kind::File => "file"@,
        }
    }

    /// The kind whose scheme is `s`, if any.
    pub open spec fn spec_from_scheme(s: Seq<char>) -> Option<Kind> {
        if s == "ram"@ {
            Some(Kind::Ram)
        } else if s == "shm"@ {
            Some(Kind::Shm)
        } else if s == "file"@ {
            Some(Kind::File)
        } else {
            None
        }
    }

    /// Every kind, in declaration order.
    pub const ALL: [Kind; 3] = [Kind::Ram, Kind::Shm, Kind::File];

    pub fn scheme(self) -> (r: &'static str)
        ensures
            r@ == self.spec_scheme(),
    {
        match self {
            Kind::Ram => "ram",
            Kind::Shm => "shm",
            Kind::File => "file",
        }
    }

    pub fn from_scheme(scheme: &str) -> (r: Option<Kind>)
        ensures
            r == Kind::spec_from_scheme(scheme@),
    {
        if str_is(scheme, "ram") {
            Some(Kind::Ram)
        } else if str_is(scheme, "shm") {
            Some(Kind::Shm)
        } else if str_is(scheme, "file") {
            Some(Kind::File)
        } else {
            None
        }
    }

    /// The url's scheme is this kind's.
    pub fn matches_url(&self, url: &Url) -> (r: bool)
        ensures
            r == (url_scheme(url@) == self.spec_scheme()),
    {
        str_is(url.scheme(), self.scheme())
    }

    /// `Ok(())` when the url's scheme matches this kind; otherwise [`KindMismatch`].
    pub fn compare_url(&self, url: &Url) -> (r: Result<(), KindMismatch>)
        ensures
            r is Ok <==> url_scheme(url@) == self.spec_scheme(),
            r matches Err(m) ==> m.url_scheme@ == url_scheme(url@) && m.kind == *self,
    {
        if self.matches_url(url) {
            Ok(())
        } else {
            Err(KindMismatch { url_scheme: url.scheme().to_owned(), kind: *self })
        }
    }

    /// Same as [`Kind::compare_url`].
    pub fn ensure_url(&self, url: &Url) -> (r: Result<(), KindMismatch>)
        ensures
            r is Ok <==> url_scheme(url@) == self.spec_scheme(),
            r matches Err(m) ==> m.url_scheme@ == url_scheme(url@) && m.kind == *self,
    {
        self.compare_url(url)
    }
}

/// The scheme of a kind names that kind back, and the three schemes differ.
pub proof fn lemma_scheme_roundtrip(k: Kind)
    ensures
        Kind::spec_from_scheme(k.spec_scheme()) == Some(k),
        forall|j: Kind| j != k ==> j.spec_scheme() != k.spec_scheme(),
{
    reveal_strlit("ram");
    reveal_strlit("shm");
    reveal_strlit("file");
    assert("ram"@ != "shm"@) by {
        assert("ram"@[0] != "shm"@[0]);
    }
    assert("ram"@ != "file"@) by {
        assert("ram"@.len() != "file"@.len());
    }
    assert("shm"@ != "file"@) by {
        assert("shm"@.len() != "file"@.len());
    }
}

/// Links a backend type to its [`Kind`].
pub trait HasKind {
    const KIND: Kind;
}

/// A url whose scheme is not the one of the storage kind it was given to.
#[derive(Debug, Clone)]
pub struct KindMismatch {
    pub url_scheme: String,
    pub kind: Kind,
}

impl KindMismatch {
    /// `url scheme <scheme> does not match storage kind <kind>`.
    pub fn message(&self) -> (r: String)
        ensures
            r@ == "url scheme "@ + self.url_scheme@ + " does not match storage kind "@
                + self.kind.spec_scheme(),
    {
        let mut s = String::from_str("url scheme ");
        s.append(self.url_scheme.as_str());
        s.append(" does not match storage kind ");
        s.append(self.kind.scheme());
        s
    }
}

} // verus!
