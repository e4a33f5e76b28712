//! The fungible balance ledger: account balances with an atomic,
//! existence-preserving transfer primitive.
//!
//! A transfer succeeds only if the payer can part with the amount and still
//! keep at least the ledger's minimum balance; on success it moves the whole
//! amount, on failure it moves nothing.  The ledger keeps the invariant that
//! its recorded total equals the sum of all balances, so no transfer can ever
//! overflow a recipient's balance.

use vstd::prelude::*;

use crate::table::Table;

verus! {

/// Account balances keyed by account id, together with the minimum balance an
/// account must keep after paying, and the total of all balances.
pub struct Ledger {
    min: u64,
    total: u64,
    accounts: Vec<(u64, u64)>,
}

impl Ledger {
    /// The sum of the balances recorded in `s`.
    pub open spec fn sum_of(s: Seq<(u64, u64)>) -> int
        decreases s.len(),
    {
        if s.len() == 0 {
            0
        } else {
            s[0].1 + Self::sum_of(s.drop_first())
        }
    }

    /// The balance `s` records for `a`; an account without an entry holds 0.
    pub open spec fn bal_of(s: Seq<(u64, u64)>, a: u64) -> u64 {
        match Table::<u64>::get_of(s, a) {
            Some(v) => v,
            None => 0,
        }
    }

    pub closed spec fn balance_at(self, a: u64) -> u64 {
        Self::bal_of(self.accounts@, a)
    }

    /// The minimum balance a payer must keep after paying.
    pub closed spec fn spec_min(self) -> u64 {
        self.min
    }

    /// The total of all balances, which every transfer preserves.
    pub closed spec fn spec_total(self) -> u64 {
        self.total
    }

    pub closed spec fn wf(self) -> bool {
        &&& Table::<u64>::dup_free(self.accounts@)
        &&& self.total == Self::sum_of(self.accounts@)
    }

    /// `from` can pay `amount` and still keep the minimum balance.
    pub open spec fn can_pay(self, from: u64, amount: u64) -> bool {
        self.balance_at(from) >= amount + self.spec_min()
    }

    proof fn lemma_sum_nonneg(s: Seq<(u64, u64)>)
        ensures
            Self::sum_of(s) >= 0,
        decreases s.len(),
    {
        if s.len() > 0 {
            Self::lemma_sum_nonneg(s.drop_first());
        }
    }

    proof fn lemma_sum_push(s: Seq<(u64, u64)>, e: (u64, u64))
        ensures
            Self::sum_of(s.push(e)) == Self::sum_of(s) + e.1,
        decreases s.len(),
    {
        if s.len() == 0 {
            assert(s.push(e)[0] == e);
            assert(s.push(e).drop_first() =~= s);
        } else {
            assert(s.push(e)[0] == s[0]);
            assert(s.push(e).drop_first() =~= s.drop_first().push(e));
            Self::lemma_sum_push(s.drop_first(), e);
        }
    }

    proof fn lemma_sum_update(s: Seq<(u64, u64)>, i: int, e: (u64, u64))
        requires
            0 <= i < s.len(),
        ensures
            Self::sum_of(s.update(i, e)) == Self::sum_of(s) - s[i].1 + e.1,
        decreases i,
    {
        let u = s.update(i, e);
        if i == 0 {
            assert(u[0] == e);
            assert(u.drop_first() =~= s.drop_first());
        } else {
            assert(u[0] == s[0]);
            assert(u.drop_first() =~= s.drop_first().update(i - 1, e));
            Self::lemma_sum_update(s.drop_first(), i - 1, e);
        }
    }

    /// No single balance exceeds the sum of all of them.
    proof fn lemma_single_bound_seq(s: Seq<(u64, u64)>, a: u64)
        ensures
            Self::bal_of(s, a) <= Self::sum_of(s),
        decreases s.len(),
    {
        if s.len() == 0 {
        } else {
            Self::lemma_sum_nonneg(s.drop_first());
            if s[0].0 == a {
            } else {
                Self::lemma_single_bound_seq(s.drop_first(), a);
            }
        }
    }

    /// Two distinct accounts together hold no more than the sum of all
    /// balances.
    proof fn lemma_pair_bound_seq(s: Seq<(u64, u64)>, a: u64, b: u64)
        requires
            Table::<u64>::dup_free(s),
            a != b,
        ensures
            Self::bal_of(s, a) + Self::bal_of(s, b) <= Self::sum_of(s),
        decreases s.len(),
    {
        if s.len() == 0 {
        } else {
            assert(Table::<u64>::dup_free(s.drop_first())) by {
                assert forall|i: int, j: int|
                    0 <= i < j < s.drop_first().len()
                    implies (#[trigger] s.drop_first()[i]).0
                        != (#[trigger] s.drop_first()[j]).0 by {
                    assert(s.drop_first()[i] == s[i + 1]);
                    assert(s.drop_first()[j] == s[j + 1]);
                }
            }
            if s[0].0 == a {
                Self::lemma_single_bound_seq(s.drop_first(), b);
            } else if s[0].0 == b {
                Self::lemma_single_bound_seq(s.drop_first(), a);
            } else {
                Self::lemma_pair_bound_seq(s.drop_first(), a, b);
            }
        }
    }

    pub proof fn lemma_single_bound(self, a: u64)
        requires
            self.wf(),
        ensures
            self.balance_at(a) <= self.spec_total(),
    {
        Self::lemma_single_bound_seq(self.accounts@, a);
    }

    pub proof fn lemma_pair_bound(self, a: u64, b: u64)
        requires
            self.wf(),
            a != b,
        ensures
            self.balance_at(a) + self.balance_at(b) <= self.spec_total(),
    {
        Self::lemma_pair_bound_seq(self.accounts@, a, b);
    }

    /// An empty ledger whose payers must keep at least `min` after paying.
    pub fn new(min: u64) -> (r: Self)
        ensures
            r.wf(),
            r.spec_min() == min,
            r.spec_total() == 0,
            forall|a: u64| #![trigger r.balance_at(a)] r.balance_at(a) == 0,
    {
        let r = Ledger { min, total: 0, accounts: Vec::new() };
        proof {
            assert forall|a: u64| r.balance_at(a) == 0 by {
                Table::<u64>::lemma_get_absent(r.accounts@, a);
            }
        }
        r
    }

    /// The position of the entry for account `a`, if there is one.
    fn find(&self, a: u64) -> (r: Option<usize>)
        ensures
            match r {
                Some(i) => i < self.accounts@.len()
                    && self.accounts@[i as int].0 == a
                    && forall|j: int|
                        0 <= j < i ==> (#[trigger] self.accounts@[j]).0 != a,
                None => forall|j: int|
                    0 <= j < self.accounts@.len()
                        ==> (#[trigger] self.accounts@[j]).0 != a,
            },
    {
        let n = self.accounts.len();
        let mut i: usize = 0;
        while i < n
            invariant
                i <= n,
                n == self.accounts@.len(),
                forall|j: int| 0 <= j < i ==> (#[trigger] self.accounts@[j]).0 != a,
            decreases n - i,
        {
            if self.accounts[i].0 == a {
                return Some(i);
            }
            i += 1;
        }
        None
    }

    pub fn min_balance(&self) -> (r: u64)
        ensures
            r == self.spec_min(),
    {
        self.min
    }

    pub fn total(&self) -> (r: u64)
        ensures
            r == self.spec_total(),
    {
        self.total
    }

    pub fn balance(&self, a: u64) -> (r: u64)
        ensures
            r == self.balance_at(a),
    {
        match self.find(a) {
            Some(i) => {
                proof {
                    Table::<u64>::lemma_get_found(self.accounts@, a, i as int);
                }
                self.accounts[i].1
            }
            None => {
                proof {
                    Table::<u64>::lemma_get_absent(self.accounts@, a);
                }
                0
            }
        }
    }

    /// Record balance `v` for account `a`.
    fn set_balance(&mut self, a: u64, v: u64)
        requires
            old(self).wf(),
            old(self).spec_total() - old(self).balance_at(a) + v <= u64::MAX,
        ensures
            final(self).wf(),
            final(self).spec_min() == old(self).spec_min(),
            final(self).spec_total()
                == old(self).spec_total() - old(self).balance_at(a) + v,
            final(self).balance_at(a) == v,
            forall|x: u64| #![trigger final(self).balance_at(x)]
                x != a ==> final(self).balance_at(x) == old(self).balance_at(x),
    {
        let ghost s = self.accounts@;
        match self.find(a) {
            Some(i) => {
                proof {
                    Table::<u64>::lemma_get_found(s, a, i as int);
                    Self::lemma_single_bound_seq(s, a);
                }
                let old_v = self.accounts[i].1;
                self.total = self.total - old_v + v;
                self.accounts.set(i, (a, v));
                proof {
                    Self::lemma_sum_update(s, i as int, (a, v));
                    assert forall|x: u64|
                        self.balance_at(x) == (if x == a {
                            v
                        } else {
                            Self::bal_of(s, x)
                        }) by {
                        Table::<u64>::lemma_get_update(s, i as int, (a, v), x);
                    }
                }
            }
            None => {
                proof {
                    Table::<u64>::lemma_get_absent(s, a);
                }
                self.total = self.total + v;
                self.accounts.push((a, v));
                proof {
                    Self::lemma_sum_push(s, (a, v));
                    assert forall|x: int, y: int|
                        0 <= x < y < self.accounts@.len()
                        implies (#[trigger] self.accounts@[x]).0
                            != (#[trigger] self.accounts@[y]).0 by {
                        if y < s.len() {
                        } else {
                            assert(self.accounts@[x] == s[x]);
                            assert(self.accounts@[y] == (a, v));
                        }
                    }
                    assert forall|x: u64|
                        self.balance_at(x) == (if x == a {
                            v
                        } else {
                            Self::bal_of(s, x)
                        }) by {
                        Table::<u64>::lemma_get_push(s, (a, v), x);
                    }
                }
            }
        }
    }

    /// Credit `a` with `amount` out of nothing; fails only when the ledger's
    /// total would no longer fit.
    pub fn deposit(&mut self, a: u64, amount: u64) -> (r: bool)
        requires
            old(self).wf(),
        ensures
            final(self).wf(),
            final(self).spec_min() == old(self).spec_min(),
            r <==> old(self).spec_total() + amount <= u64::MAX,
            !r ==> *final(self) == *old(self),
            r ==> final(self).spec_total() == old(self).spec_total() + amount,
            r ==> final(self).balance_at(a) == old(self).balance_at(a) + amount,
            r ==> forall|x: u64| #![trigger final(self).balance_at(x)]
                x != a ==> final(self).balance_at(x) == old(self).balance_at(x),
    {
        if self.total > u64::MAX - amount {
            return false;
        }
        let b = self.balance(a);
        proof {
            self.lemma_single_bound(a);
        }
        self.set_balance(a, b + amount);
        true
    }

    /// Move `amount` from `from` to `to`.  Succeeds exactly when `from` holds
    /// at least `amount` plus the minimum balance; on failure nothing moves.
    /// A transfer from an account to itself moves nothing either way.
    pub fn transfer(&mut self, from: u64, to: u64, amount: u64) -> (r: bool)
        requires
            old(self).wf(),
        ensures
            final(self).wf(),
            final(self).spec_min() == old(self).spec_min(),
            final(self).spec_total() == old(self).spec_total(),
            r <==> old(self).can_pay(from, amount),
            !r ==> *final(self) == *old(self),
            r ==> forall|x: u64| #![trigger final(self).balance_at(x)]
                final(self).balance_at(x) == (if from == to {
                    old(self).balance_at(x) as int
                } else if x == from {
                    old(self).balance_at(from) - amount
                } else if x == to {
                    old(self).balance_at(to) + amount
                } else {
                    old(self).balance_at(x) as int
                }),
    {
        let b_from = self.balance(from);
        if !(b_from >= self.min && b_from - self.min >= amount) {
            return false;
        }
        if from == to {
            return true;
        }
        let b_to = self.balance(to);
        proof {
            self.lemma_pair_bound(from, to);
        }
        self.set_balance(from, b_from - amount);
        self.set_balance(to, b_to + amount);
        true
    }
}

} // verus!
