//! The cache directory is made once, on first use. Whether that worked is
//! remembered for the whole session: a directory that could not be made
//! fails every request from then on, and no other place is tried.

use vstd::prelude::*;

verus! {

/// What is known of the cache directory.
pub enum Readiness {
    /// Nobody has tried to make it yet.
    Untried,
    /// It is there.
    Ready,
    /// It could not be made, for the reason given.
    Failed(String),
}

/// What is known of the cache directory, as a value: nothing yet, or how
/// making it went.
pub open spec fn known_of(readiness: Readiness) -> Option<Result<(), Seq<char>>> {
    match readiness {
        Readiness::Untried => None,
        Readiness::Ready => Some(Ok(())),
        Readiness::Failed(reason) => Some(Err(reason@)),
    }
}

/// How making the directory went, as a value.
pub open spec fn made_of(made: Result<(), String>) -> Result<(), Seq<char>> {
    match made {
        Ok(_) => Ok(()),
        Err(reason) => Err(reason@),
    }
}

/// The cache directory of a session and what is known of it.
pub struct CacheDirectory {
    path: String,
    readiness: Readiness,
}

impl CacheDirectory {
    /// The directory's path.
    pub closed spec fn spec_path(&self) -> Seq<char> {
        self.path@
    }

    /// What is known of the directory.
    pub closed spec fn known(&self) -> Option<Result<(), Seq<char>>> {
        known_of(self.readiness)
    }

    /// A cache directory that nobody has tried to make yet.
    pub fn new(path: String) -> (directory: CacheDirectory)
        ensures
            directory.spec_path() == path@,
            directory.known() is None,
    {
        CacheDirectory { path, readiness: Readiness::Untried }
    }

    /// The directory's path.
    pub fn path(&self) -> (path: &str)
        ensures
            path@ == self.spec_path(),
    {
        self.path.as_str()
    }

    /// What a request finds: `None` where the directory is to be made now,
    /// else how making it went, without another try.
    pub fn plan(&self) -> (found: Option<Result<(), String>>)
        ensures
            match found {
                Some(made) => self.known() == Some(made_of(made)),
                None => self.known() is None,
            },
    {
        match &self.readiness {
            Readiness::Untried => None,
            Readiness::Ready => Some(Ok(())),
            Readiness::Failed(reason) => Some(Err(reason.clone())),
        }
    }

    /// Takes note of how making the directory went. Only the first note
    /// counts: what is known once stays as it is.
    pub fn record(&mut self, made: Result<(), String>)
        ensures
            final(self).spec_path() == old(self).spec_path(),
            final(self).known() == match old(self).known() {
                Some(before) => Some(before),
                None => Some(made_of(made)),
            },
    {
        let untried = match &self.readiness {
            Readiness::Untried => true,
            _ => false,
        };
        if untried {
            self.readiness = match made {
                Ok(_) => Readiness::Ready,
                Err(reason) => Readiness::Failed(reason),
            };
        }
    }
}

} // verus!
