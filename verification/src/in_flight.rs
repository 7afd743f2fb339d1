//! The guard that lets one request at a time generate the thumbnail of a
//! given key, so that concurrent requests for the same source do not repeat
//! the work.

use crate::models::PathTable;
use vstd::prelude::*;

verus! {

/// The keys whose thumbnails are being generated right now.
pub struct InFlight {
    claims: PathTable,
}

impl View for InFlight {
    type V = Set<Seq<char>>;

    closed spec fn view(&self) -> Set<Seq<char>> {
        self.claims@.dom()
    }
}

impl InFlight {
    /// The guard's invariant.
    pub closed spec fn well_formed(&self) -> bool {
        self.claims.well_formed()
    }

    /// A guard under which nothing is being generated.
    pub fn new() -> (guard: InFlight)
        ensures
            guard.well_formed(),
            guard@ == Set::<Seq<char>>::empty(),
    {
        let guard = InFlight { claims: PathTable::new() };
        assert(guard@ =~= Set::<Seq<char>>::empty());
        guard
    }

    /// Whether some request holds `key`.
    pub fn is_claimed(&self, key: &str) -> (held: bool)
        requires
            self.well_formed(),
        ensures
            held == self@.contains(key@),
    {
        self.claims.contains_key(key)
    }

    /// Asks for `key`. The claim is granted exactly when no request holds the
    /// key, and the key is held from then on.
    pub fn claim(&mut self, key: &str) -> (granted: bool)
        requires
            old(self).well_formed(),
        ensures
            final(self).well_formed(),
            granted == !old(self)@.contains(key@),
            final(self)@ == old(self)@.insert(key@),
    {
        if self.claims.contains_key(key) {
            assert(self@.insert(key@) =~= self@);
            false
        } else {
            self.claims.insert(key.to_owned(), String::new());
            assert(self@ =~= old(self)@.insert(key@));
            true
        }
    }

    /// Gives `key` up: no request holds it afterwards.
    pub fn release(&mut self, key: &str)
        requires
            old(self).well_formed(),
        ensures
            final(self).well_formed(),
            final(self)@ == old(self)@.remove(key@),
    {
        self.claims.remove(key);
        assert(self@ =~= old(self)@.remove(key@));
    }
}

} // verus!
