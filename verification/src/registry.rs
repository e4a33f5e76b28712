//! The class and token ownership registry: which classes exist and who owns
//! them, which tokens exist and who owns them, and the next free ids.
//!
//! The registry is the ownership truth the marketplace consults before every
//! operation; it never touches balances, configuration or the sale book.

use vstd::prelude::*;

use crate::table::PairTable;
use crate::table::Table;

verus! {

/// Class ownership, token ownership and id allocation, keyed by `u64` class
/// and token ids.
pub struct Registry {
    next_class: u64,
    classes: Table<u64>,
    next_tokens: Table<u64>,
    tokens: PairTable,
}

impl Registry {
    /// The owner of class `c`, if the class exists.
    pub closed spec fn class_owner_at(self, c: u64) -> Option<u64> {
        self.classes.spec_get(c)
    }

    /// The owner of token `t` of class `c`, if that token exists.
    pub closed spec fn token_owner_at(self, c: u64, t: u64) -> Option<u64> {
        self.tokens.spec_get(c, t)
    }

    /// The id the next token minted into class `c` will get.
    pub closed spec fn next_token_at(self, c: u64) -> u64 {
        match self.next_tokens.spec_get(c) {
            Some(n) => n,
            None => 0,
        }
    }

    /// The id the next created class will get.
    pub closed spec fn spec_next_class(self) -> u64 {
        self.next_class
    }

    pub closed spec fn wf(self) -> bool {
        &&& self.classes.wf()
        &&& self.next_tokens.wf()
        &&& self.tokens.wf()
        &&& forall|c: u64, t: u64| #![trigger self.tokens.spec_get(c, t)]
            self.tokens.spec_get(c, t) is Some ==> self.classes.spec_get(c) is Some
    }

    /// Every existing token belongs to an existing class.
    pub proof fn lemma_token_has_class(self, c: u64, t: u64)
        requires
            self.wf(),
            self.token_owner_at(c, t) is Some,
        ensures
            self.class_owner_at(c) is Some,
    {
    }

    pub fn new() -> (r: Self)
        ensures
            r.wf(),
            r.spec_next_class() == 0,
            forall|c: u64| #![trigger r.class_owner_at(c)] r.class_owner_at(c) is None,
            forall|c: u64, t: u64| #![trigger r.token_owner_at(c, t)]
                r.token_owner_at(c, t) is None,
            forall|c: u64| #![trigger r.next_token_at(c)] r.next_token_at(c) == 0,
    {
        Registry {
            next_class: 0,
            classes: Table::new(),
            next_tokens: Table::new(),
            tokens: PairTable::new(),
        }
    }

    pub fn class_owner(&self, c: u64) -> (r: Option<u64>)
        ensures
            r == self.class_owner_at(c),
    {
        match self.classes.get(c) {
            Some(o) => Some(*o),
            None => None,
        }
    }

    pub fn token_owner(&self, c: u64, t: u64) -> (r: Option<u64>)
        ensures
            r == self.token_owner_at(c, t),
    {
        self.tokens.get(c, t)
    }

    pub fn next_token_id(&self, c: u64) -> (r: u64)
        ensures
            r == self.next_token_at(c),
    {
        match self.next_tokens.get(c) {
            Some(n) => *n,
            None => 0,
        }
    }

    pub fn next_class_id(&self) -> (r: u64)
        ensures
            r == self.spec_next_class(),
    {
        self.next_class
    }

    /// Create a new class owned by `owner`; fails exactly when the class ids
    /// are exhausted.
    pub fn create_class(&mut self, owner: u64) -> (r: Option<u64>)
        requires
            old(self).wf(),
        ensures
            final(self).wf(),
            r is None <==> old(self).spec_next_class() == u64::MAX,
            r is None ==> *final(self) == *old(self),
            r is Some ==> {
                &&& r->0 == old(self).spec_next_class()
                &&& final(self).spec_next_class() == old(self).spec_next_class() + 1
                &&& final(self).class_owner_at(r->0) == Some(owner)
                &&& forall|c: u64| #![trigger final(self).class_owner_at(c)]
                    c != r->0 ==> final(self).class_owner_at(c) == old(self).class_owner_at(c)
                &&& forall|c: u64, t: u64| #![trigger final(self).token_owner_at(c, t)]
                    final(self).token_owner_at(c, t) == old(self).token_owner_at(c, t)
                &&& forall|c: u64| #![trigger final(self).next_token_at(c)]
                    final(self).next_token_at(c) == old(self).next_token_at(c)
            },
    {
        if self.next_class == u64::MAX {
            return None;
        }
        let id = self.next_class;
        self.next_class = self.next_class + 1;
        self.classes.insert(id, owner);
        Some(id)
    }

    /// Mint a new token into class `c`, owned by `owner`; fails exactly when
    /// the class does not exist or its token ids are exhausted.
    pub fn mint_token(&mut self, c: u64, owner: u64) -> (r: Option<u64>)
        requires
            old(self).wf(),
        ensures
            final(self).wf(),
            r is None <==> (old(self).class_owner_at(c) is None
                || old(self).next_token_at(c) == u64::MAX),
            r is None ==> *final(self) == *old(self),
            r is Some ==> {
                &&& r->0 == old(self).next_token_at(c)
                &&& final(self).spec_next_class() == old(self).spec_next_class()
                &&& final(self).token_owner_at(c, r->0) == Some(owner)
                &&& forall|c2: u64, t2: u64| #![trigger final(self).token_owner_at(c2, t2)]
                    !(c2 == c && t2 == r->0)
                        ==> final(self).token_owner_at(c2, t2)
                            == old(self).token_owner_at(c2, t2)
                &&& final(self).next_token_at(c) == old(self).next_token_at(c) + 1
                &&& forall|c2: u64| #![trigger final(self).next_token_at(c2)]
                    c2 != c ==> final(self).next_token_at(c2) == old(self).next_token_at(c2)
                &&& forall|c2: u64| #![trigger final(self).class_owner_at(c2)]
                    final(self).class_owner_at(c2) == old(self).class_owner_at(c2)
            },
    {
        match self.classes.get(c) {
            Some(_) => {}
            None => {
                return None;
            }
        }
        let next = match self.next_tokens.get(c) {
            Some(n) => *n,
            None => 0,
        };
        if next == u64::MAX {
            return None;
        }
        self.tokens.insert(c, next, owner);
        self.next_tokens.insert(c, next + 1);
        Some(next)
    }

    /// Hand token `t` of class `c` to `to`; the token must exist.
    pub fn move_token(&mut self, c: u64, t: u64, to: u64)
        requires
            old(self).wf(),
            old(self).token_owner_at(c, t) is Some,
        ensures
            final(self).wf(),
            final(self).spec_next_class() == old(self).spec_next_class(),
            final(self).token_owner_at(c, t) == Some(to),
            forall|c2: u64, t2: u64| #![trigger final(self).token_owner_at(c2, t2)]
                !(c2 == c && t2 == t)
                    ==> final(self).token_owner_at(c2, t2) == old(self).token_owner_at(c2, t2),
            forall|c2: u64| #![trigger final(self).class_owner_at(c2)]
                final(self).class_owner_at(c2) == old(self).class_owner_at(c2),
            forall|c2: u64| #![trigger final(self).next_token_at(c2)]
                final(self).next_token_at(c2) == old(self).next_token_at(c2),
    {
        self.tokens.insert(c, t, to);
    }
}

} // verus!
