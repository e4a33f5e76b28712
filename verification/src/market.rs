//! The marketplace: mintable, priced, royalty-bearing, resellable tokens on
//! top of the ownership registry and the balance ledger.
//!
//! Every operation validates all of its preconditions before it mutates
//! anything, so a failed call provably leaves class configuration, the sale
//! book, token ownership and balances exactly as they were, and a successful
//! call applies the whole effect: that all-or-nothing contract is stated in
//! the `ensures` of each operation.

use vstd::prelude::*;

use crate::ledger::Ledger;
use crate::registry::Registry;
use crate::table::PairTable;
use crate::table::Table;

verus! {

/// Per-class configuration, set at class creation and mutated only by the
/// class owner.
#[derive(Clone, Copy, Debug, PartialEq, Eq, Structural)]
pub struct ClassConfig {
    /// Whether new tokens may currently be minted into the class.
    pub mintable: bool,
    /// The fee a minter pays to the class owner at mint time.
    pub mint_price: u64,
    /// The fixed amount paid to the class owner whenever a token of the
    /// class changes hands, by transfer or by sale.
    pub royalty_rate: u64,
}

/// Why an operation was rejected.  A rejected operation changes nothing.
#[derive(Clone, Copy, Debug, PartialEq, Eq, Structural)]
pub enum Error {
    /// The referenced class has no configuration.
    InvalidClassId,
    /// The class is not currently mintable.
    CantMint,
    /// The caller is not the class owner.
    InvalidPermission,
    /// The referenced token does not exist.
    TokenNotFound,
    /// The caller does not own the token.
    TokenNotOwned,
    /// The token has no active listing.
    TokenNotForSale,
    /// The buyer already owns the token.
    BuyerSellerSame,
    /// A payer cannot cover a price or royalty while keeping the minimum
    /// balance.
    InsufficientFunds,
    /// The registry could not allocate a class id.
    ClassCreationFailed,
    /// The registry could not allocate a token id.
    TokenCreationFailed,
}

/// The notifications an operation emits, in order, for external observers.
#[derive(Clone, Copy, Debug, PartialEq, Eq, Structural)]
pub enum Event {
    /// A class was created: (owner, class id).
    ClassCreated(u64, u64),
    /// A token was minted: (owner, token id).
    TokenMinted(u64, u64),
    /// A token changed hands: (from, to, class id, token id).
    TokenTransferred(u64, u64, u64, u64),
    /// A royalty was settled: (payer, amount).
    RoyaltySent(u64, u64),
    /// A listing was posted: (class id, token id).
    SaleCreated(u64, u64),
    /// A listing was withdrawn: (class id, token id).
    SaleDeleted(u64, u64),
    /// A listed token was bought: (buyer, class id, token id).
    SaleCompleted(u64, u64, u64),
}

/// The whole system: the ownership registry, the balance ledger, per-class
/// configuration, the sale book, and the log of emitted events.
pub struct Marketplace {
    registry: Registry,
    ledger: Ledger,
    info: Table<ClassConfig>,
    sales: PairTable,
    events: Vec<Event>,
}

impl Marketplace {
    /// The configuration of class `c`, if the class was created here.
    pub closed spec fn info_at(self, c: u64) -> Option<ClassConfig> {
        self.info.spec_get(c)
    }

    /// The ask price of token `t` of class `c`, if it is listed.
    pub closed spec fn sale_at(self, c: u64, t: u64) -> Option<u64> {
        self.sales.spec_get(c, t)
    }

    /// The owner of class `c`, if the class exists.
    pub closed spec fn class_owner_at(self, c: u64) -> Option<u64> {
        self.registry.class_owner_at(c)
    }

    /// The owner of token `t` of class `c`, if that token exists.
    pub closed spec fn token_owner_at(self, c: u64, t: u64) -> Option<u64> {
        self.registry.token_owner_at(c, t)
    }

    /// The id the next created class will get.
    pub closed spec fn next_class_at(self) -> u64 {
        self.registry.spec_next_class()
    }

    /// The id the next token minted into class `c` will get.
    pub closed spec fn next_token_at(self, c: u64) -> u64 {
        self.registry.next_token_at(c)
    }

    /// The balance of account `a`.
    pub closed spec fn balance_at(self, a: u64) -> u64 {
        self.ledger.balance_at(a)
    }

    /// The minimum balance a payer must keep after paying.
    pub closed spec fn min_balance_at(self) -> u64 {
        self.ledger.spec_min()
    }

    /// The total of all balances; no operation but `deposit` changes it.
    pub closed spec fn total_at(self) -> u64 {
        self.ledger.spec_total()
    }

    /// The events emitted so far, oldest first.
    pub closed spec fn events_at(self) -> Seq<Event> {
        self.events@
    }

    /// `from` can pay `amount` and still keep the minimum balance.
    pub open spec fn can_pay(self, from: u64, amount: u64) -> bool {
        self.balance_at(from) >= amount + self.min_balance_at()
    }

    /// Well-formedness: the parts are well-formed, a class has a
    /// configuration exactly when it exists in the registry, and a listed
    /// token exists in the registry.
    pub closed spec fn wf(self) -> bool {
        &&& self.registry.wf()
        &&& self.ledger.wf()
        &&& self.info.wf()
        &&& self.sales.wf()
        &&& forall|c: u64| #![trigger self.info.spec_get(c)]
            self.info.spec_get(c) is Some <==> self.registry.class_owner_at(c) is Some
        &&& forall|c: u64, t: u64| #![trigger self.sales.spec_get(c, t)]
            self.sales.spec_get(c, t) is Some ==> self.registry.token_owner_at(c, t) is Some
    }

    /// The data-model invariants, stated as facts a caller may use: a class
    /// has a configuration exactly when it exists in the registry, a listed
    /// token exists in the registry, and an existing token's class exists
    /// (so the class's configuration exists too).
    pub proof fn lemma_wf_facts(self, c: u64, t: u64)
        requires
            self.wf(),
        ensures
            self.info_at(c) is Some <==> self.class_owner_at(c) is Some,
            self.sale_at(c, t) is Some ==> self.token_owner_at(c, t) is Some,
            self.token_owner_at(c, t) is Some ==> self.class_owner_at(c) is Some,
    {
        if self.token_owner_at(c, t) is Some {
            self.registry.lemma_token_has_class(c, t);
        }
    }

    /// An empty marketplace whose payers must keep at least `min_balance`
    /// after paying.
    pub fn new(min_balance: u64) -> (r: Self)
        ensures
            r.wf(),
            r.min_balance_at() == min_balance,
            r.total_at() == 0,
            r.next_class_at() == 0,
            forall|c: u64| #![trigger r.info_at(c)] r.info_at(c) is None,
            forall|c: u64, t: u64| #![trigger r.sale_at(c, t)] r.sale_at(c, t) is None,
            forall|c: u64| #![trigger r.class_owner_at(c)] r.class_owner_at(c) is None,
            forall|c: u64, t: u64| #![trigger r.token_owner_at(c, t)]
                r.token_owner_at(c, t) is None,
            forall|c: u64| #![trigger r.next_token_at(c)] r.next_token_at(c) == 0,
            forall|a: u64| #![trigger r.balance_at(a)] r.balance_at(a) == 0,
            r.events_at() == Seq::<Event>::empty(),
    {
        Marketplace {
            registry: Registry::new(),
            ledger: Ledger::new(min_balance),
            info: Table::new(),
            sales: PairTable::new(),
            events: Vec::new(),
        }
    }

    /// Credit `who` with `amount` out of nothing (an endowment, not a
    /// marketplace operation); fails only when the ledger's total would no
    /// longer fit.
    pub fn deposit(&mut self, who: u64, amount: u64) -> (r: bool)
        requires
            old(self).wf(),
        ensures
            final(self).wf(),
            r <==> old(self).total_at() + amount <= u64::MAX,
            !r ==> *final(self) == *old(self),
            r ==> final(self).balance_at(who) == old(self).balance_at(who) + amount,
            r ==> forall|a: u64| #![trigger final(self).balance_at(a)]
                a != who ==> final(self).balance_at(a) == old(self).balance_at(a),
            r ==> final(self).total_at() == old(self).total_at() + amount,
            final(self).min_balance_at() == old(self).min_balance_at(),
            final(self).unchanged_but_ledger(*old(self)),
    {
        self.ledger.deposit(who, amount)
    }

    /// Everything except the balance ledger is as it is in `pre`.
    pub open spec fn unchanged_but_ledger(self, pre: Self) -> bool {
        &&& self.next_class_at() == pre.next_class_at()
        &&& forall|c: u64| #![trigger self.class_owner_at(c)]
            self.class_owner_at(c) == pre.class_owner_at(c)
        &&& forall|c: u64, t: u64| #![trigger self.token_owner_at(c, t)]
            self.token_owner_at(c, t) == pre.token_owner_at(c, t)
        &&& forall|c: u64| #![trigger self.next_token_at(c)]
            self.next_token_at(c) == pre.next_token_at(c)
        &&& forall|c: u64| #![trigger self.info_at(c)] self.info_at(c) == pre.info_at(c)
        &&& forall|c: u64, t: u64| #![trigger self.sale_at(c, t)]
            self.sale_at(c, t) == pre.sale_at(c, t)
        &&& self.events_at() == pre.events_at()
    }

    /// All balances, their total and the minimum balance are as in `pre`.
    pub open spec fn unchanged_ledger(self, pre: Self) -> bool {
        &&& forall|a: u64| #![trigger self.balance_at(a)]
            self.balance_at(a) == pre.balance_at(a)
        &&& self.total_at() == pre.total_at()
        &&& self.min_balance_at() == pre.min_balance_at()
    }

    /// Succeeds exactly when `who` owns class `class_id`; a missing class is
    /// reported before a wrong owner.
    pub fn ensure_class_owner(&self, who: u64, class_id: u64) -> (r: Result<(), Error>)
        ensures
            r is Ok <==> self.class_owner_at(class_id) == Some(who),
            r == Err::<(), Error>(Error::InvalidClassId)
                <==> self.class_owner_at(class_id) is None,
            r == Err::<(), Error>(Error::InvalidPermission)
                <==> (self.class_owner_at(class_id) is Some
                    && self.class_owner_at(class_id) != Some(who)),
    {
        match self.registry.class_owner(class_id) {
            None => Err(Error::InvalidClassId),
            Some(owner) => {
                if owner == who {
                    Ok(())
                } else {
                    Err(Error::InvalidPermission)
                }
            }
        }
    }

    /// Succeeds exactly when `who` owns token `token_id` of class
    /// `class_id`; a missing token counts as not owned.
    pub fn ensure_token_owner(&self, who: u64, class_id: u64, token_id: u64) -> (r: Result<
        (),
        Error,
    >)
        ensures
            r is Ok <==> self.token_owner_at(class_id, token_id) == Some(who),
            r is Err ==> r == Err::<(), Error>(Error::TokenNotOwned),
    {
        match self.registry.token_owner(class_id, token_id) {
            Some(owner) => {
                if owner == who {
                    Ok(())
                } else {
                    Err(Error::TokenNotOwned)
                }
            }
            None => Err(Error::TokenNotOwned),
        }
    }

    /// Create a new class owned by `who`, configured to mint at `price` with
    /// royalty `royalty`, and mintable from the start.  The metadata and
    /// class payload are recorded by external indexers through the emitted
    /// event; the marketplace rules never read them.
    pub fn create_nft_class(
        &mut self,
        who: u64,
        _class_metadata: Vec<u8>,
        _class_data: u32,
        price: u64,
        royalty: u64,
    ) -> (r: Result<u64, Error>)
        requires
            old(self).wf(),
        ensures
            final(self).wf(),
            r is Err <==> old(self).next_class_at() == u64::MAX,
            r is Err ==> r == Err::<u64, Error>(Error::ClassCreationFailed)
                && *final(self) == *old(self),
            r is Ok ==> {
                &&& r == Ok::<u64, Error>(old(self).next_class_at())
                &&& final(self).next_class_at() == old(self).next_class_at() + 1
                &&& final(self).class_owner_at(old(self).next_class_at()) == Some(who)
                &&& forall|c: u64| #![trigger final(self).class_owner_at(c)]
                    c != old(self).next_class_at()
                        ==> final(self).class_owner_at(c) == old(self).class_owner_at(c)
                &&& final(self).info_at(old(self).next_class_at()) is Some
                &&& final(self).info_at(old(self).next_class_at())->0.mintable == true
                &&& final(self).info_at(old(self).next_class_at())->0.mint_price == price
                &&& final(self).info_at(old(self).next_class_at())->0.royalty_rate == royalty
                &&& forall|c: u64| #![trigger final(self).info_at(c)]
                    c != old(self).next_class_at()
                        ==> final(self).info_at(c) == old(self).info_at(c)
                &&& forall|c: u64, t: u64| #![trigger final(self).token_owner_at(c, t)]
                    final(self).token_owner_at(c, t) == old(self).token_owner_at(c, t)
                &&& forall|c: u64, t: u64| #![trigger final(self).sale_at(c, t)]
                    final(self).sale_at(c, t) == old(self).sale_at(c, t)
                &&& forall|c: u64| #![trigger final(self).next_token_at(c)]
                    final(self).next_token_at(c) == old(self).next_token_at(c)
                &&& final(self).unchanged_ledger(*old(self))
                &&& final(self).events_at() == old(self).events_at().push(
                    Event::ClassCreated(who, old(self).next_class_at()),
                )
            },
    {
        let id = match self.registry.create_class(who) {
            Some(id) => id,
            None => {
                return Err(Error::ClassCreationFailed);
            }
        };
        self.info.insert(
            id,
            ClassConfig { mintable: true, mint_price: price, royalty_rate: royalty },
        );
        self.events.push(Event::ClassCreated(who, id));
        Ok(id)
    }

    /// Set whether class `class_id` is mintable; only its owner may, and the
    /// other two configuration fields are untouched.
    pub fn set_mintable(&mut self, who: u64, class_id: u64, can_mint: bool) -> (r: Result<
        (),
        Error,
    >)
        requires
            old(self).wf(),
        ensures
            final(self).wf(),
            r == Err::<(), Error>(Error::InvalidClassId)
                <==> old(self).class_owner_at(class_id) is None,
            r == Err::<(), Error>(Error::InvalidPermission)
                <==> (old(self).class_owner_at(class_id) is Some
                    && old(self).class_owner_at(class_id) != Some(who)),
            r is Ok <==> old(self).class_owner_at(class_id) == Some(who),
            r is Err ==> *final(self) == *old(self),
            r is Ok ==> {
                &&& final(self).info_at(class_id) is Some
                &&& final(self).info_at(class_id)->0.mintable == can_mint
                &&& final(self).info_at(class_id)->0.mint_price
                    == old(self).info_at(class_id)->0.mint_price
                &&& final(self).info_at(class_id)->0.royalty_rate
                    == old(self).info_at(class_id)->0.royalty_rate
                &&& forall|c: u64| #![trigger final(self).info_at(c)]
                    c != class_id ==> final(self).info_at(c) == old(self).info_at(c)
                &&& final(self).unchanged_but_info(*old(self))
            },
    {
        match self.ensure_class_owner(who, class_id) {
            Ok(()) => {}
            Err(e) => {
                return Err(e);
            }
        }
        let cfg = match self.info.get(class_id) {
            Some(cfg) => *cfg,
            None => {
                proof {
                    assert(false);
                }
                return Err(Error::InvalidClassId);
            }
        };
        self.info.insert(
            class_id,
            ClassConfig {
                mintable: can_mint,
                mint_price: cfg.mint_price,
                royalty_rate: cfg.royalty_rate,
            },
        );
        Ok(())
    }

    /// Set the mint price of class `class_id`; only its owner may, and the
    /// other two configuration fields are untouched.
    pub fn set_price(&mut self, who: u64, class_id: u64, price: u64) -> (r: Result<(), Error>)
        requires
            old(self).wf(),
        ensures
            final(self).wf(),
            r == Err::<(), Error>(Error::InvalidClassId)
                <==> old(self).class_owner_at(class_id) is None,
            r == Err::<(), Error>(Error::InvalidPermission)
                <==> (old(self).class_owner_at(class_id) is Some
                    && old(self).class_owner_at(class_id) != Some(who)),
            r is Ok <==> old(self).class_owner_at(class_id) == Some(who),
            r is Err ==> *final(self) == *old(self),
            r is Ok ==> {
                &&& final(self).info_at(class_id) is Some
                &&& final(self).info_at(class_id)->0.mintable
                    == old(self).info_at(class_id)->0.mintable
                &&& final(self).info_at(class_id)->0.mint_price == price
                &&& final(self).info_at(class_id)->0.royalty_rate
                    == old(self).info_at(class_id)->0.royalty_rate
                &&& forall|c: u64| #![trigger final(self).info_at(c)]
                    c != class_id ==> final(self).info_at(c) == old(self).info_at(c)
                &&& final(self).unchanged_but_info(*old(self))
            },
    {
        match self.ensure_class_owner(who, class_id) {
            Ok(()) => {}
            Err(e) => {
                return Err(e);
            }
        }
        let cfg = match self.info.get(class_id) {
            Some(cfg) => *cfg,
            None => {
                proof {
                    assert(false);
                }
                return Err(Error::InvalidClassId);
            }
        };
        self.info.insert(
            class_id,
            ClassConfig {
                mintable: cfg.mintable,
                mint_price: price,
                royalty_rate: cfg.royalty_rate,
            },
        );
        Ok(())
    }

    /// Set the royalty rate of class `class_id`; only its owner may, and the
    /// other two configuration fields are untouched.  The rate is a fixed
    /// amount, not a percentage, and is never measured against any price.
    pub fn set_royalty(&mut self, who: u64, class_id: u64, royalty: u64) -> (r: Result<
        (),
        Error,
    >)
        requires
            old(self).wf(),
        ensures
            final(self).wf(),
            r == Err::<(), Error>(Error::InvalidClassId)
                <==> old(self).class_owner_at(class_id) is None,
            r == Err::<(), Error>(Error::InvalidPermission)
                <==> (old(self).class_owner_at(class_id) is Some
                    && old(self).class_owner_at(class_id) != Some(who)),
            r is Ok <==> old(self).class_owner_at(class_id) == Some(who),
            r is Err ==> *final(self) == *old(self),
            r is Ok ==> {
                &&& final(self).info_at(class_id) is Some
                &&& final(self).info_at(class_id)->0.mintable
                    == old(self).info_at(class_id)->0.mintable
                &&& final(self).info_at(class_id)->0.mint_price
                    == old(self).info_at(class_id)->0.mint_price
                &&& final(self).info_at(class_id)->0.royalty_rate == royalty
                &&& forall|c: u64| #![trigger final(self).info_at(c)]
                    c != class_id ==> final(self).info_at(c) == old(self).info_at(c)
                &&& final(self).unchanged_but_info(*old(self))
            },
    {
        match self.ensure_class_owner(who, class_id) {
            Ok(()) => {}
            Err(e) => {
                return Err(e);
            }
        }
        let cfg = match self.info.get(class_id) {
            Some(cfg) => *cfg,
            None => {
                proof {
                    assert(false);
                }
                return Err(Error::InvalidClassId);
            }
        };
        self.info.insert(
            class_id,
            ClassConfig {
                mintable: cfg.mintable,
                mint_price: cfg.mint_price,
                royalty_rate: royalty,
            },
        );
        Ok(())
    }

    /// Mint a new token of class `class_id`, owned by `who`, who pays the
    /// class's mint price to the class owner.  Mintability, the token id and
    /// the payment are all validated before anything is written, so the
    /// token is never minted without the payment.
    pub fn mint_nft_token(
        &mut self,
        who: u64,
        class_id: u64,
        _metadata: Vec<u8>,
        _data: u32,
    ) -> (r: Result<u64, Error>)
        requires
            old(self).wf(),
        ensures
            final(self).wf(),
            r == Err::<u64, Error>(Error::InvalidClassId)
                <==> old(self).info_at(class_id) is None,
            r == Err::<u64, Error>(Error::CantMint)
                <==> (old(self).info_at(class_id) is Some
                    && !old(self).info_at(class_id)->0.mintable),
            r == Err::<u64, Error>(Error::TokenCreationFailed)
                <==> (old(self).info_at(class_id) is Some
                    && old(self).info_at(class_id)->0.mintable
                    && old(self).next_token_at(class_id) == u64::MAX),
            r == Err::<u64, Error>(Error::InsufficientFunds)
                <==> (old(self).info_at(class_id) is Some
                    && old(self).info_at(class_id)->0.mintable
                    && old(self).next_token_at(class_id) != u64::MAX
                    && !old(self).can_pay(who, old(self).info_at(class_id)->0.mint_price)),
            r is Ok <==> (old(self).info_at(class_id) is Some
                && old(self).info_at(class_id)->0.mintable
                && old(self).next_token_at(class_id) != u64::MAX
                && old(self).can_pay(who, old(self).info_at(class_id)->0.mint_price)),
            r is Err ==> *final(self) == *old(self),
            r is Ok ==> {
                &&& r == Ok::<u64, Error>(old(self).next_token_at(class_id))
                &&& final(self).token_owner_at(class_id, old(self).next_token_at(class_id))
                    == Some(who)
                &&& forall|c: u64, t: u64| #![trigger final(self).token_owner_at(c, t)]
                    !(c == class_id && t == old(self).next_token_at(class_id))
                        ==> final(self).token_owner_at(c, t) == old(self).token_owner_at(c, t)
                &&& final(self).next_token_at(class_id)
                    == old(self).next_token_at(class_id) + 1
                &&& forall|c: u64| #![trigger final(self).next_token_at(c)]
                    c != class_id ==> final(self).next_token_at(c) == old(self).next_token_at(c)
                &&& final(self).next_class_at() == old(self).next_class_at()
                &&& forall|c: u64| #![trigger final(self).class_owner_at(c)]
                    final(self).class_owner_at(c) == old(self).class_owner_at(c)
                &&& forall|c: u64| #![trigger final(self).info_at(c)]
                    final(self).info_at(c) == old(self).info_at(c)
                &&& forall|c: u64, t: u64| #![trigger final(self).sale_at(c, t)]
                    final(self).sale_at(c, t) == old(self).sale_at(c, t)
                &&& forall|a: u64| #![trigger final(self).balance_at(a)]
                    final(self).balance_at(a)
                        == old(self).balance_at(a)
                            + (if a == old(self).class_owner_at(class_id)->0 {
                            old(self).info_at(class_id)->0.mint_price as int
                        } else {
                            0
                        }) - (if a == who {
                            old(self).info_at(class_id)->0.mint_price as int
                        } else {
                            0
                        })
                &&& final(self).total_at() == old(self).total_at()
                &&& final(self).min_balance_at() == old(self).min_balance_at()
                &&& final(self).events_at() == old(self).events_at().push(
                    Event::TokenMinted(who, old(self).next_token_at(class_id)),
                )
            },
    {
        let cfg = match self.info.get(class_id) {
            Some(cfg) => *cfg,
            None => {
                return Err(Error::InvalidClassId);
            }
        };
        if !cfg.mintable {
            return Err(Error::CantMint);
        }
        let class_owner = match self.registry.class_owner(class_id) {
            Some(owner) => owner,
            None => {
                proof {
                    assert(false);
                }
                return Err(Error::InvalidClassId);
            }
        };
        if self.registry.next_token_id(class_id) == u64::MAX {
            return Err(Error::TokenCreationFailed);
        }
        let min = self.ledger.min_balance();
        let bal = self.ledger.balance(who);
        if !(bal >= min && bal - min >= cfg.mint_price) {
            return Err(Error::InsufficientFunds);
        }
        let token_id = match self.registry.mint_token(class_id, who) {
            Some(t) => t,
            None => {
                proof {
                    assert(false);
                }
                return Err(Error::TokenCreationFailed);
            }
        };
        let paid = self.ledger.transfer(who, class_owner, cfg.mint_price);
        if !paid {
            proof {
                assert(false);
            }
            return Err(Error::InsufficientFunds);
        }
        self.events.push(Event::TokenMinted(who, token_id));
        Ok(token_id)
    }

    /// The single royalty settlement routine: pay the class's fixed royalty
    /// from `who` to the class owner and record the settlement event.  Both
    /// `nft_transfer` and `buy` funnel through it.
    fn send_royalties(&mut self, who: u64, class_id: u64) -> (r: Result<(), Error>)
        requires
            old(self).wf(),
        ensures
            final(self).wf(),
            r == Err::<(), Error>(Error::InvalidClassId)
                <==> old(self).info_at(class_id) is None,
            r == Err::<(), Error>(Error::InsufficientFunds)
                <==> (old(self).info_at(class_id) is Some
                    && !old(self).can_pay(who, old(self).info_at(class_id)->0.royalty_rate)),
            r is Ok <==> (old(self).info_at(class_id) is Some
                && old(self).can_pay(who, old(self).info_at(class_id)->0.royalty_rate)),
            r is Err ==> *final(self) == *old(self),
            r is Ok ==> {
                &&& forall|a: u64| #![trigger final(self).balance_at(a)]
                    final(self).balance_at(a)
                        == old(self).balance_at(a)
                            + (if a == old(self).class_owner_at(class_id)->0 {
                            old(self).info_at(class_id)->0.royalty_rate as int
                        } else {
                            0
                        }) - (if a == who {
                            old(self).info_at(class_id)->0.royalty_rate as int
                        } else {
                            0
                        })
                &&& final(self).total_at() == old(self).total_at()
                &&& final(self).min_balance_at() == old(self).min_balance_at()
                &&& final(self).unchanged_but_ledger_events(*old(self))
                &&& final(self).events_at() == old(self).events_at().push(
                    Event::RoyaltySent(who, old(self).info_at(class_id)->0.royalty_rate),
                )
            },
    {
        let cfg = match self.info.get(class_id) {
            Some(cfg) => *cfg,
            None => {
                return Err(Error::InvalidClassId);
            }
        };
        let class_owner = match self.registry.class_owner(class_id) {
            Some(owner) => owner,
            None => {
                proof {
                    assert(false);
                }
                return Err(Error::InvalidClassId);
            }
        };
        let paid = self.ledger.transfer(who, class_owner, cfg.royalty_rate);
        if !paid {
            return Err(Error::InsufficientFunds);
        }
        self.events.push(Event::RoyaltySent(who, cfg.royalty_rate));
        Ok(())
    }

    /// Transfer token `token_id` of class `class_id` from its owner `who` to
    /// `to`.  The royalty is settled first, so ownership never moves without
    /// the royalty payment.  A listing for the token, if any, is left in
    /// place: only `delete_sale` or a completed `buy` clears a listing.
    pub fn nft_transfer(&mut self, who: u64, to: u64, class_id: u64, token_id: u64) -> (r:
        Result<(), Error>)
        requires
            old(self).wf(),
        ensures
            final(self).wf(),
            r == Err::<(), Error>(Error::TokenNotFound)
                <==> old(self).token_owner_at(class_id, token_id) is None,
            r == Err::<(), Error>(Error::TokenNotOwned)
                <==> (old(self).token_owner_at(class_id, token_id) is Some
                    && old(self).token_owner_at(class_id, token_id) != Some(who)),
            r == Err::<(), Error>(Error::InsufficientFunds)
                <==> (old(self).token_owner_at(class_id, token_id) == Some(who)
                    && !old(self).can_pay(who, old(self).info_at(class_id)->0.royalty_rate)),
            r is Ok <==> (old(self).token_owner_at(class_id, token_id) == Some(who)
                && old(self).can_pay(who, old(self).info_at(class_id)->0.royalty_rate)),
            r is Err ==> *final(self) == *old(self),
            r is Ok ==> {
                &&& final(self).token_owner_at(class_id, token_id) == Some(to)
                &&& forall|c: u64, t: u64| #![trigger final(self).token_owner_at(c, t)]
                    !(c == class_id && t == token_id)
                        ==> final(self).token_owner_at(c, t) == old(self).token_owner_at(c, t)
                &&& forall|a: u64| #![trigger final(self).balance_at(a)]
                    final(self).balance_at(a)
                        == old(self).balance_at(a)
                            + (if a == old(self).class_owner_at(class_id)->0 {
                            old(self).info_at(class_id)->0.royalty_rate as int
                        } else {
                            0
                        }) - (if a == who {
                            old(self).info_at(class_id)->0.royalty_rate as int
                        } else {
                            0
                        })
                &&& final(self).total_at() == old(self).total_at()
                &&& final(self).min_balance_at() == old(self).min_balance_at()
                &&& final(self).next_class_at() == old(self).next_class_at()
                &&& forall|c: u64| #![trigger final(self).class_owner_at(c)]
                    final(self).class_owner_at(c) == old(self).class_owner_at(c)
                &&& forall|c: u64| #![trigger final(self).next_token_at(c)]
                    final(self).next_token_at(c) == old(self).next_token_at(c)
                &&& forall|c: u64| #![trigger final(self).info_at(c)]
                    final(self).info_at(c) == old(self).info_at(c)
                &&& forall|c: u64, t: u64| #![trigger final(self).sale_at(c, t)]
                    final(self).sale_at(c, t) == old(self).sale_at(c, t)
                &&& final(self).events_at() == old(self).events_at().push(
                    Event::RoyaltySent(who, old(self).info_at(class_id)->0.royalty_rate),
                ).push(Event::TokenTransferred(who, to, class_id, token_id))
            },
            r is Ok && who != old(self).class_owner_at(class_id)->0 ==> {
                &&& final(self).balance_at(who)
                    == old(self).balance_at(who)
                        - old(self).info_at(class_id)->0.royalty_rate
                &&& final(self).balance_at(old(self).class_owner_at(class_id)->0)
                    == old(self).balance_at(old(self).class_owner_at(class_id)->0)
                        + old(self).info_at(class_id)->0.royalty_rate
            },
    {
        let owner = match self.registry.token_owner(class_id, token_id) {
            Some(owner) => owner,
            None => {
                return Err(Error::TokenNotFound);
            }
        };
        if owner != who {
            return Err(Error::TokenNotOwned);
        }
        proof {
            self.registry.lemma_token_has_class(class_id, token_id);
        }
        match self.send_royalties(who, class_id) {
            Ok(()) => {}
            Err(e) => {
                return Err(e);
            }
        }
        let ghost mid = *self;
        proof {
            assert(mid.token_owner_at(class_id, token_id)
                == old(self).token_owner_at(class_id, token_id));
        }
        self.registry.move_token(class_id, token_id, to);
        self.events.push(Event::TokenTransferred(who, to, class_id, token_id));
        proof {
            assert forall|c: u64, t: u64| !(c == class_id && t == token_id) implies
                self.token_owner_at(c, t) == old(self).token_owner_at(c, t) by {
                assert(mid.token_owner_at(c, t) == old(self).token_owner_at(c, t));
            }
            assert forall|c: u64| self.class_owner_at(c) == old(self).class_owner_at(c) by {
                assert(mid.class_owner_at(c) == old(self).class_owner_at(c));
            }
            assert forall|c: u64| self.next_token_at(c) == old(self).next_token_at(c) by {
                assert(mid.next_token_at(c) == old(self).next_token_at(c));
            }
            assert forall|c: u64| self.info_at(c) == old(self).info_at(c) by {
                assert(mid.info_at(c) == old(self).info_at(c));
            }
            assert forall|c: u64, t: u64| self.sale_at(c, t) == old(self).sale_at(c, t) by {
                assert(mid.sale_at(c, t) == old(self).sale_at(c, t));
            }
            assert forall|a: u64|
                self.balance_at(a)
                    == old(self).balance_at(a)
                        + (if a == old(self).class_owner_at(class_id)->0 {
                        old(self).info_at(class_id)->0.royalty_rate as int
                    } else {
                        0
                    }) - (if a == who {
                        old(self).info_at(class_id)->0.royalty_rate as int
                    } else {
                        0
                    }) by {
                assert(self.balance_at(a) == mid.balance_at(a));
            }
        }
        Ok(())
    }

    /// List token `token_id` of class `class_id` for sale at `price`.  Only
    /// the token's owner may; a prior listing is overwritten.
    pub fn create_sale(&mut self, who: u64, class_id: u64, token_id: u64, price: u64) -> (r:
        Result<(), Error>)
        requires
            old(self).wf(),
        ensures
            final(self).wf(),
            r is Ok <==> old(self).token_owner_at(class_id, token_id) == Some(who),
            r is Err ==> r == Err::<(), Error>(Error::TokenNotOwned)
                && *final(self) == *old(self),
            r is Ok ==> {
                &&& final(self).sale_at(class_id, token_id) == Some(price)
                &&& forall|c: u64, t: u64| #![trigger final(self).sale_at(c, t)]
                    !(c == class_id && t == token_id)
                        ==> final(self).sale_at(c, t) == old(self).sale_at(c, t)
                &&& final(self).unchanged_but_sales_events(*old(self))
                &&& final(self).events_at() == old(self).events_at().push(
                    Event::SaleCreated(class_id, token_id),
                )
            },
    {
        match self.ensure_token_owner(who, class_id, token_id) {
            Ok(()) => {}
            Err(e) => {
                return Err(e);
            }
        }
        self.sales.insert(class_id, token_id, price);
        self.events.push(Event::SaleCreated(class_id, token_id));
        Ok(())
    }

    /// Withdraw the listing of token `token_id` of class `class_id`.  The
    /// listing must exist and only the token's owner may withdraw it.
    pub fn delete_sale(&mut self, who: u64, class_id: u64, token_id: u64) -> (r: Result<
        (),
        Error,
    >)
        requires
            old(self).wf(),
        ensures
            final(self).wf(),
            r == Err::<(), Error>(Error::TokenNotForSale)
                <==> old(self).sale_at(class_id, token_id) is None,
            r == Err::<(), Error>(Error::TokenNotOwned)
                <==> (old(self).sale_at(class_id, token_id) is Some
                    && old(self).token_owner_at(class_id, token_id) != Some(who)),
            r is Ok <==> (old(self).sale_at(class_id, token_id) is Some
                && old(self).token_owner_at(class_id, token_id) == Some(who)),
            r is Err ==> *final(self) == *old(self),
            r is Ok ==> {
                &&& final(self).sale_at(class_id, token_id) is None
                &&& forall|c: u64, t: u64| #![trigger final(self).sale_at(c, t)]
                    !(c == class_id && t == token_id)
                        ==> final(self).sale_at(c, t) == old(self).sale_at(c, t)
                &&& final(self).unchanged_but_sales_events(*old(self))
                &&& final(self).events_at() == old(self).events_at().push(
                    Event::SaleDeleted(class_id, token_id),
                )
            },
    {
        match self.sales.get(class_id, token_id) {
            Some(_) => {}
            None => {
                return Err(Error::TokenNotForSale);
            }
        }
        match self.ensure_token_owner(who, class_id, token_id) {
            Ok(()) => {}
            Err(e) => {
                return Err(e);
            }
        }
        let _ = self.sales.remove(class_id, token_id);
        self.events.push(Event::SaleDeleted(class_id, token_id));
        Ok(())
    }

    /// The funds side of a purchase can go through: the buyer can pay the
    /// ask price, and the seller, once credited with it, can pay the class's
    /// royalty.
    pub open spec fn buy_funds_ok(self, buyer: u64, c: u64, t: u64) -> bool {
        let price = self.sale_at(c, t)->0;
        let seller = self.token_owner_at(c, t)->0;
        let royalty = self.info_at(c)->0.royalty_rate;
        &&& self.can_pay(buyer, price)
        &&& self.balance_at(seller) + price >= royalty + self.min_balance_at()
    }

    /// Buy the listed token `token_id` of class `class_id`.  The buyer pays
    /// the ask price to the seller, the seller pays the class's royalty to
    /// the class owner, ownership moves to the buyer and the listing is
    /// consumed — all of it, or none of it.
    pub fn buy(&mut self, buyer: u64, class_id: u64, token_id: u64) -> (r: Result<(), Error>)
        requires
            old(self).wf(),
        ensures
            final(self).wf(),
            r == Err::<(), Error>(Error::TokenNotForSale)
                <==> old(self).sale_at(class_id, token_id) is None,
            r == Err::<(), Error>(Error::BuyerSellerSame)
                <==> (old(self).sale_at(class_id, token_id) is Some
                    && old(self).token_owner_at(class_id, token_id) == Some(buyer)),
            r == Err::<(), Error>(Error::InsufficientFunds)
                <==> (old(self).sale_at(class_id, token_id) is Some
                    && old(self).token_owner_at(class_id, token_id) != Some(buyer)
                    && !old(self).buy_funds_ok(buyer, class_id, token_id)),
            r is Ok <==> (old(self).sale_at(class_id, token_id) is Some
                && old(self).token_owner_at(class_id, token_id) != Some(buyer)
                && old(self).buy_funds_ok(buyer, class_id, token_id)),
            r is Err ==> *final(self) == *old(self),
            r is Ok ==> {
                &&& final(self).token_owner_at(class_id, token_id) == Some(buyer)
                &&& forall|c: u64, t: u64| #![trigger final(self).token_owner_at(c, t)]
                    !(c == class_id && t == token_id)
                        ==> final(self).token_owner_at(c, t) == old(self).token_owner_at(c, t)
                &&& final(self).sale_at(class_id, token_id) is None
                &&& forall|c: u64, t: u64| #![trigger final(self).sale_at(c, t)]
                    !(c == class_id && t == token_id)
                        ==> final(self).sale_at(c, t) == old(self).sale_at(c, t)
                &&& forall|a: u64| #![trigger final(self).balance_at(a)]
                    final(self).balance_at(a)
                        == old(self).balance_at(a)
                            + (if a == old(self).token_owner_at(class_id, token_id)->0 {
                            old(self).sale_at(class_id, token_id)->0 as int
                        } else {
                            0
                        }) + (if a == old(self).class_owner_at(class_id)->0 {
                            old(self).info_at(class_id)->0.royalty_rate as int
                        } else {
                            0
                        }) - (if a == buyer {
                            old(self).sale_at(class_id, token_id)->0 as int
                        } else {
                            0
                        }) - (if a == old(self).token_owner_at(class_id, token_id)->0 {
                            old(self).info_at(class_id)->0.royalty_rate as int
                        } else {
                            0
                        })
                &&& final(self).total_at() == old(self).total_at()
                &&& final(self).min_balance_at() == old(self).min_balance_at()
                &&& final(self).next_class_at() == old(self).next_class_at()
                &&& forall|c: u64| #![trigger final(self).class_owner_at(c)]
                    final(self).class_owner_at(c) == old(self).class_owner_at(c)
                &&& forall|c: u64| #![trigger final(self).next_token_at(c)]
                    final(self).next_token_at(c) == old(self).next_token_at(c)
                &&& forall|c: u64| #![trigger final(self).info_at(c)]
                    final(self).info_at(c) == old(self).info_at(c)
                &&& final(self).events_at() == old(self).events_at().push(
                    Event::RoyaltySent(
                        old(self).token_owner_at(class_id, token_id)->0,
                        old(self).info_at(class_id)->0.royalty_rate,
                    ),
                ).push(Event::SaleCompleted(buyer, class_id, token_id))
            },
            r is Ok && buyer != old(self).class_owner_at(class_id)->0
                && old(self).token_owner_at(class_id, token_id)->0
                    != old(self).class_owner_at(class_id)->0 ==> {
                &&& final(self).balance_at(old(self).token_owner_at(class_id, token_id)->0)
                    == old(self).balance_at(old(self).token_owner_at(class_id, token_id)->0)
                        + old(self).sale_at(class_id, token_id)->0
                        - old(self).info_at(class_id)->0.royalty_rate
                &&& final(self).balance_at(old(self).class_owner_at(class_id)->0)
                    == old(self).balance_at(old(self).class_owner_at(class_id)->0)
                        + old(self).info_at(class_id)->0.royalty_rate
                &&& final(self).balance_at(buyer)
                    == old(self).balance_at(buyer)
                        - old(self).sale_at(class_id, token_id)->0
            },
    {
        let price = match self.sales.get(class_id, token_id) {
            Some(p) => p,
            None => {
                return Err(Error::TokenNotForSale);
            }
        };
        let seller = match self.registry.token_owner(class_id, token_id) {
            Some(o) => o,
            None => {
                proof {
                    assert(false);
                }
                return Err(Error::TokenNotFound);
            }
        };
        if buyer == seller {
            return Err(Error::BuyerSellerSame);
        }
        proof {
            self.registry.lemma_token_has_class(class_id, token_id);
        }
        let cfg = match self.info.get(class_id) {
            Some(cfg) => *cfg,
            None => {
                proof {
                    assert(false);
                }
                return Err(Error::InvalidClassId);
            }
        };
        let cowner = match self.registry.class_owner(class_id) {
            Some(o) => o,
            None => {
                proof {
                    assert(false);
                }
                return Err(Error::InvalidClassId);
            }
        };
        let min = self.ledger.min_balance();
        let b_buyer = self.ledger.balance(buyer);
        if !(b_buyer >= min && b_buyer - min >= price) {
            return Err(Error::InsufficientFunds);
        }
        let b_seller = self.ledger.balance(seller);
        proof {
            self.ledger.lemma_pair_bound(buyer, seller);
        }
        let credited = b_seller + price;
        if !(credited >= min && credited - min >= cfg.royalty_rate) {
            return Err(Error::InsufficientFunds);
        }
        self.registry.move_token(class_id, token_id, buyer);
        let _ = self.sales.remove(class_id, token_id);
        let ghost mid2 = *self;
        let paid = self.ledger.transfer(buyer, seller, price);
        if !paid {
            proof {
                assert(false);
            }
            return Err(Error::InsufficientFunds);
        }
        let ghost mid3 = *self;
        proof {
            assert(mid3.info_at(class_id) == old(self).info_at(class_id));
            assert(mid3.class_owner_at(class_id) == old(self).class_owner_at(class_id));
            assert(mid3.balance_at(seller) == b_seller + price);
            assert(mid3.min_balance_at() == min);
        }
        match self.send_royalties(seller, class_id) {
            Ok(()) => {}
            Err(_) => {
                proof {
                    assert(false);
                }
                return Err(Error::InsufficientFunds);
            }
        }
        let ghost mid4 = *self;
        self.events.push(Event::SaleCompleted(buyer, class_id, token_id));
        proof {
            assert forall|c: u64, t: u64| !(c == class_id && t == token_id) implies
                self.token_owner_at(c, t) == old(self).token_owner_at(c, t) by {
                assert(mid4.token_owner_at(c, t) == mid3.token_owner_at(c, t));
                assert(mid3.token_owner_at(c, t) == old(self).token_owner_at(c, t));
            }
            assert(mid4.token_owner_at(class_id, token_id)
                == mid3.token_owner_at(class_id, token_id));
            assert forall|c: u64, t: u64| !(c == class_id && t == token_id) implies
                self.sale_at(c, t) == old(self).sale_at(c, t) by {
                assert(mid4.sale_at(c, t) == mid3.sale_at(c, t));
                assert(mid3.sale_at(c, t) == old(self).sale_at(c, t));
            }
            assert(mid4.sale_at(class_id, token_id) == mid3.sale_at(class_id, token_id));
            assert forall|c: u64| self.class_owner_at(c) == old(self).class_owner_at(c) by {
                assert(mid4.class_owner_at(c) == mid3.class_owner_at(c));
                assert(mid3.class_owner_at(c) == old(self).class_owner_at(c));
            }
            assert forall|c: u64| self.next_token_at(c) == old(self).next_token_at(c) by {
                assert(mid4.next_token_at(c) == mid3.next_token_at(c));
                assert(mid3.next_token_at(c) == old(self).next_token_at(c));
            }
            assert forall|c: u64| self.info_at(c) == old(self).info_at(c) by {
                assert(mid4.info_at(c) == mid3.info_at(c));
                assert(mid3.info_at(c) == old(self).info_at(c));
            }
            assert forall|a: u64|
                self.balance_at(a)
                    == old(self).balance_at(a)
                        + (if a == seller {
                        price as int
                    } else {
                        0
                    }) + (if a == cowner {
                        cfg.royalty_rate as int
                    } else {
                        0
                    }) - (if a == buyer {
                        price as int
                    } else {
                        0
                    }) - (if a == seller {
                        cfg.royalty_rate as int
                    } else {
                        0
                    }) by {
                assert(self.balance_at(a) == mid4.balance_at(a));
                assert(mid4.balance_at(a)
                    == mid3.balance_at(a)
                        + (if a == cowner {
                        cfg.royalty_rate as int
                    } else {
                        0
                    }) - (if a == seller {
                        cfg.royalty_rate as int
                    } else {
                        0
                    }));
                assert(mid3.balance_at(a)
                    == old(self).balance_at(a)
                        + (if a == seller {
                        price as int
                    } else {
                        0
                    }) - (if a == buyer {
                        price as int
                    } else {
                        0
                    }));
            }
        }
        Ok(())
    }

    /// The configuration of class `class_id`, if the class was created
    /// here.
    pub fn info(&self, class_id: u64) -> (r: Option<ClassConfig>)
        ensures
            r == self.info_at(class_id),
    {
        match self.info.get(class_id) {
            Some(cfg) => Some(*cfg),
            None => None,
        }
    }

    /// The ask price of token `token_id` of class `class_id`, if listed.
    pub fn sales(&self, class_id: u64, token_id: u64) -> (r: Option<u64>)
        ensures
            r == self.sale_at(class_id, token_id),
    {
        self.sales.get(class_id, token_id)
    }

    /// The owner of token `token_id` of class `class_id`, if it exists.
    pub fn token_owner(&self, class_id: u64, token_id: u64) -> (r: Option<u64>)
        ensures
            r == self.token_owner_at(class_id, token_id),
    {
        self.registry.token_owner(class_id, token_id)
    }

    /// The owner of class `class_id`, if it exists.
    pub fn class_owner(&self, class_id: u64) -> (r: Option<u64>)
        ensures
            r == self.class_owner_at(class_id),
    {
        self.registry.class_owner(class_id)
    }

    /// The id the next created class will get.
    pub fn next_class_id(&self) -> (r: u64)
        ensures
            r == self.next_class_at(),
    {
        self.registry.next_class_id()
    }

    /// The balance of account `a`.
    pub fn balance(&self, a: u64) -> (r: u64)
        ensures
            r == self.balance_at(a),
    {
        self.ledger.balance(a)
    }

    /// The minimum balance a payer must keep after paying.
    pub fn min_balance(&self) -> (r: u64)
        ensures
            r == self.min_balance_at(),
    {
        self.ledger.min_balance()
    }

    /// The total of all balances.
    pub fn total_issuance(&self) -> (r: u64)
        ensures
            r == self.total_at(),
    {
        self.ledger.total()
    }

    /// The events emitted so far, oldest first.
    pub fn events(&self) -> (r: &Vec<Event>)
        ensures
            r@ == self.events_at(),
    {
        &self.events
    }

    /// Everything except the sale book and the event log is as in `pre`.
    pub open spec fn unchanged_but_sales_events(self, pre: Self) -> bool {
        &&& self.next_class_at() == pre.next_class_at()
        &&& forall|c: u64| #![trigger self.class_owner_at(c)]
            self.class_owner_at(c) == pre.class_owner_at(c)
        &&& forall|c: u64, t: u64| #![trigger self.token_owner_at(c, t)]
            self.token_owner_at(c, t) == pre.token_owner_at(c, t)
        &&& forall|c: u64| #![trigger self.next_token_at(c)]
            self.next_token_at(c) == pre.next_token_at(c)
        &&& forall|c: u64| #![trigger self.info_at(c)] self.info_at(c) == pre.info_at(c)
        &&& self.unchanged_ledger(pre)
    }

    /// Everything except the balance ledger and the event log is as in
    /// `pre`.
    pub open spec fn unchanged_but_ledger_events(self, pre: Self) -> bool {
        &&& self.next_class_at() == pre.next_class_at()
        &&& forall|c: u64| #![trigger self.class_owner_at(c)]
            self.class_owner_at(c) == pre.class_owner_at(c)
        &&& forall|c: u64, t: u64| #![trigger self.token_owner_at(c, t)]
            self.token_owner_at(c, t) == pre.token_owner_at(c, t)
        &&& forall|c: u64| #![trigger self.next_token_at(c)]
            self.next_token_at(c) == pre.next_token_at(c)
        &&& forall|c: u64| #![trigger self.info_at(c)] self.info_at(c) == pre.info_at(c)
        &&& forall|c: u64, t: u64| #![trigger self.sale_at(c, t)]
            self.sale_at(c, t) == pre.sale_at(c, t)
    }

    /// Everything except class configuration is as it is in `pre`.
    pub open spec fn unchanged_but_info(self, pre: Self) -> bool {
        &&& self.next_class_at() == pre.next_class_at()
        &&& forall|c: u64| #![trigger self.class_owner_at(c)]
            self.class_owner_at(c) == pre.class_owner_at(c)
        &&& forall|c: u64, t: u64| #![trigger self.token_owner_at(c, t)]
            self.token_owner_at(c, t) == pre.token_owner_at(c, t)
        &&& forall|c: u64| #![trigger self.next_token_at(c)]
            self.next_token_at(c) == pre.next_token_at(c)
        &&& forall|c: u64, t: u64| #![trigger self.sale_at(c, t)]
            self.sale_at(c, t) == pre.sale_at(c, t)
        &&& self.unchanged_ledger(pre)
        &&& self.events_at() == pre.events_at()
    }
}

} // verus!
