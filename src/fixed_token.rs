use vstd::prelude::*;

use crate::address::Address;
use crate::error::TokenError;
use crate::table::{entries_map, entries_total, keys_distinct, AddressTable};

verus! {

/// What a successful purchase announces: who bought and how many tokens.
#[derive(Debug)]
pub struct BuyEvent {
    pub buyer: Address,
    pub amount: u64,
}

/// The amounts of a prefix never sum to more than all amounts.
proof fn lemma_prefix_total_bounded(s: Seq<(Address, u64)>, n: int)
    requires
        0 <= n <= s.len(),
    ensures
        entries_total(s.subrange(0, n)) <= entries_total(s),
    decreases s.len() - n,
{
    if n < s.len() {
        lemma_prefix_total_bounded(s, n + 1);
        assert(s.subrange(0, n + 1).drop_last() =~= s.subrange(0, n));
    } else {
        assert(s.subrange(0, n) =~= s);
    }
}

/// A fixed-supply fungible token: a pool created once at initialization,
/// drawn down by purchases that credit the buyer's balance.
pub struct FixedToken {
    initialized: bool,
    initial_supply: u64,
    remaining_supply: u64,
    balances: AddressTable<u64>,
    project_name: String,
    project_id: String,
    ipfs_hash: String,
    issuer: Option<Address>,
}

impl FixedToken {
    /// Whether the pool and the project metadata have been set.
    pub closed spec fn is_initialized(&self) -> bool {
        self.initialized
    }

    /// The supply the pool was created with (zero before initialization).
    pub closed spec fn initial(&self) -> u64 {
        self.initial_supply
    }

    /// Tokens not yet sold.
    pub closed spec fn remaining(&self) -> u64 {
        self.remaining_supply
    }

    /// The balance stored for each address that was ever credited.
    pub closed spec fn balances(&self) -> Map<Seq<char>, u64> {
        self.balances@
    }

    /// The balance of `addr`, zero for an address never credited.
    pub open spec fn balance_of(&self, addr: Seq<char>) -> int {
        if self.balances().contains_key(addr) {
            self.balances()[addr] as int
        } else {
            0
        }
    }

    /// The sum of all balances.
    pub closed spec fn total_balance(&self) -> int {
        self.balances.total()
    }

    pub closed spec fn name_view(&self) -> Seq<char> {
        self.project_name@
    }

    pub closed spec fn id_view(&self) -> Seq<char> {
        self.project_id@
    }

    pub closed spec fn ipfs_view(&self) -> Seq<char> {
        self.ipfs_hash@
    }

    /// The stored issuer, if initialization has stored one.
    pub closed spec fn issuer_view(&self) -> Option<Seq<char>> {
        match self.issuer {
            Some(a) => Some(a@),
            None => None,
        }
    }

    /// Balances are stored once per address, and every token of the pool is
    /// either unsold or in exactly one balance.
    pub closed spec fn wf(&self) -> bool {
        &&& self.balances.wf()
        &&& self.balances.total() + self.remaining_supply == self.initial_supply
        &&& !self.initialized ==> self.initial_supply == 0
    }

    /// Supply is conserved: the balances and the unsold remainder always add
    /// up to the supply the pool was created with.
    pub proof fn lemma_supply_conserved(&self)
        requires
            self.wf(),
        ensures
            self.total_balance() + self.remaining() == self.initial(),
            forall|a: Seq<char>| 0 <= #[trigger] self.balance_of(a) <= self.initial(),
    {
        assert forall|a: Seq<char>| 0 <= #[trigger] self.balance_of(a) <= self.initial() by {
            self.balances.lemma_amount_within_total(a);
        }
    }

    /// An instance that has not been initialized: no supply, no balances,
    /// empty metadata and no issuer.
    pub fn new() -> (r: FixedToken)
        ensures
            r.wf(),
            !r.is_initialized(),
            r.initial() == 0,
            r.remaining() == 0,
            r.balances() == Map::<Seq<char>, u64>::empty(),
            r.name_view() == Seq::<char>::empty(),
            r.id_view() == Seq::<char>::empty(),
            r.ipfs_view() == Seq::<char>::empty(),
            r.issuer_view() == None::<Seq<char>>,
    {
        let balances = AddressTable::new();
        proof {
            balances.lemma_empty_total();
        }
        FixedToken {
            initialized: false,
            initial_supply: 0,
            remaining_supply: 0,
            balances,
            project_name: String::new(),
            project_id: String::new(),
            ipfs_hash: String::new(),
            issuer: None,
        }
    }

    /// Rebuilds an instance from what the ledger holds: whether it was
    /// initialized, the unsold remainder, one balance per address, and the
    /// project metadata. The pool's initial supply is the remainder plus all
    /// balances; `None` where that does not fit in `u64`, or where an
    /// uninitialized ledger holds tokens.
    pub fn restore(
        initialized: bool,
        remaining_supply: u64,
        balances: Vec<(Address, u64)>,
        project_name: String,
        project_id: String,
        ipfs_hash: String,
        issuer: Option<Address>,
    ) -> (r: Option<FixedToken>)
        requires
            keys_distinct(balances@),
        ensures
            r is None <==> entries_total(balances@) + remaining_supply > u64::MAX || !initialized
                && entries_total(balances@) + remaining_supply != 0,
            r is Some ==> {
                let t = r->Some_0;
                &&& t.wf()
                &&& t.is_initialized() == initialized
                &&& t.remaining() == remaining_supply
                &&& t.initial() == entries_total(balances@) + remaining_supply
                &&& t.balances() == entries_map(balances@)
                &&& t.name_view() == project_name@
                &&& t.id_view() == project_id@
                &&& t.ipfs_view() == ipfs_hash@
                &&& t.issuer_view() == match issuer {
                    Some(a) => Some(a@),
                    None => None::<Seq<char>>,
                }
            },
    {
        let mut sold: u64 = 0;
        let mut i: usize = 0;
        while i < balances.len()
            invariant
                i <= balances@.len(),
                sold == entries_total(balances@.subrange(0, i as int)),
            decreases balances@.len() - i,
        {
            assert(balances@.subrange(0, i + 1).drop_last() =~= balances@.subrange(0, i as int));
            proof {
                lemma_prefix_total_bounded(balances@, i + 1);
            }
            if sold > u64::MAX - balances[i].1 {
                return None;
            }
            sold = sold + balances[i].1;
            i = i + 1;
        }
        assert(balances@.subrange(0, i as int) =~= balances@);
        if sold > u64::MAX - remaining_supply {
            return None;
        }
        let initial_supply = sold + remaining_supply;
        if !initialized && initial_supply != 0 {
            return None;
        }
        Some(FixedToken {
            initialized,
            initial_supply,
            remaining_supply,
            balances: AddressTable::from_amounts(balances),
            project_name,
            project_id,
            ipfs_hash,
            issuer,
        })
    }

    /// Creates the pool with `initial_supply` tokens and stores the project
    /// metadata and issuer. Succeeds once; every later call fails with
    /// `AlreadyInitialized` and changes nothing.
    pub fn init(
        &mut self,
        initial_supply: u64,
        project_name: String,
        project_id: String,
        ipfs_hash: String,
        issuer: Address,
    ) -> (r: Result<(), TokenError>)
        requires
            old(self).wf(),
        ensures
            final(self).wf(),
            old(self).is_initialized() ==> r == Err::<(), TokenError>(TokenError::AlreadyInitialized)
                && *final(self) == *old(self),
            !old(self).is_initialized() ==> {
                &&& r == Ok::<(), TokenError>(())
                &&& final(self).is_initialized()
                &&& final(self).initial() == initial_supply
                &&& final(self).remaining() == initial_supply
                &&& final(self).balances() == old(self).balances()
                &&& final(self).name_view() == project_name@
                &&& final(self).id_view() == project_id@
                &&& final(self).ipfs_view() == ipfs_hash@
                &&& final(self).issuer_view() == Some(issuer@)
            },
    {
        if self.initialized {
            return Err(TokenError::AlreadyInitialized);
        }
        proof {
            self.balances.lemma_amount_within_total(Seq::empty());
        }
        self.initialized = true;
        self.initial_supply = initial_supply;
        self.remaining_supply = initial_supply;
        self.project_name = project_name;
        self.project_id = project_id;
        self.ipfs_hash = ipfs_hash;
        self.issuer = Some(issuer);
        Ok(())
    }

    /// Sells `amount` tokens of the pool to `buyer`. The buyer's signature is
    /// checked by the host before this is called.
    ///
    /// Fails with `InvalidAmount` for zero and with `InsufficientSupply` where
    /// fewer than `amount` tokens remain; either way nothing changes.
    /// Otherwise the remainder drops by `amount`, the buyer's balance grows by
    /// `amount`, and no other balance moves.
    pub fn buy_tokens(&mut self, buyer: &Address, amount: u64) -> (r: Result<BuyEvent, TokenError>)
        requires
            old(self).wf(),
        ensures
            final(self).wf(),
            final(self).initial() == old(self).initial(),
            final(self).total_balance() + final(self).remaining() == final(self).initial(),
            amount == 0 ==> r is Err && r->Err_0 == TokenError::InvalidAmount
                && *final(self) == *old(self),
            amount > old(self).remaining() ==> r is Err && r->Err_0 == TokenError::InsufficientSupply
                && *final(self) == *old(self),
            0 < amount <= old(self).remaining() ==> {
                &&& r is Ok
                &&& r->Ok_0.buyer@ == buyer@
                &&& r->Ok_0.amount == amount
                &&& final(self).remaining() == old(self).remaining() - amount
                &&& final(self).balances() == old(self).balances().insert(
                    buyer@,
                    (old(self).balance_of(buyer@) + amount) as u64,
                )
                &&& final(self).is_initialized() == old(self).is_initialized()
                &&& final(self).name_view() == old(self).name_view()
                &&& final(self).id_view() == old(self).id_view()
                &&& final(self).ipfs_view() == old(self).ipfs_view()
                &&& final(self).issuer_view() == old(self).issuer_view()
            },
    {
        if amount == 0 {
            return Err(TokenError::InvalidAmount);
        }
        if let Err(e) = self.spend_remaining(amount) {
            return Err(e);
        }
        self.add_balance(buyer, amount);
        Ok(BuyEvent { buyer: buyer.copy(), amount })
    }

    /// Takes `amount` out of the unsold remainder, or fails with
    /// `InsufficientSupply` and changes nothing.
    fn spend_remaining(&mut self, amount: u64) -> (r: Result<(), TokenError>)
        ensures
            amount <= old(self).remaining() ==> r is Ok && *final(self) == (FixedToken {
                remaining_supply: (old(self).remaining_supply - amount) as u64,
                ..*old(self)
            }),
            amount > old(self).remaining() ==> r == Err::<(), TokenError>(
                TokenError::InsufficientSupply,
            ) && *final(self) == *old(self),
    {
        if self.remaining_supply < amount {
            return Err(TokenError::InsufficientSupply);
        }
        self.remaining_supply = self.remaining_supply - amount;
        Ok(())
    }

    /// Credits `amount` to `addr`, where it fits in the pool's accounting.
    fn add_balance(&mut self, addr: &Address, amount: u64)
        requires
            old(self).balances.wf(),
            old(self).balances.total() + amount + old(self).remaining_supply
                == old(self).initial_supply,
        ensures
            final(self).balances() == old(self).balances().insert(
                addr@,
                (old(self).balance_of(addr@) + amount) as u64,
            ),
            final(self).balances.total() == old(self).balances.total() + amount,
            final(self).balances.wf(),
            final(self).initialized == old(self).initialized,
            final(self).initial_supply == old(self).initial_supply,
            final(self).remaining_supply == old(self).remaining_supply,
            final(self).project_name == old(self).project_name,
            final(self).project_id == old(self).project_id,
            final(self).ipfs_hash == old(self).ipfs_hash,
            final(self).issuer == old(self).issuer,
    {
        proof {
            self.balances.lemma_amount_within_total(addr@);
        }
        let current = self.balances.amount(addr);
        self.balances.set_amount(addr.copy(), current + amount);
    }

    /// Tokens not yet sold.
    pub fn get_remaining_supply(&self) -> (r: u64)
        ensures
            r == self.remaining(),
    {
        self.remaining_supply
    }

    /// The balance of `addr`, zero for an address never credited.
    pub fn balance(&self, addr: &Address) -> (r: u64)
        requires
            self.wf(),
        ensures
            r == self.balance_of(addr@),
    {
        self.balances.amount(addr)
    }

    /// The stored project name, empty before initialization.
    pub fn project_name(&self) -> (r: String)
        ensures
            r@ == self.name_view(),
    {
        self.project_name.clone()
    }

    /// The stored project id, empty before initialization.
    pub fn project_id(&self) -> (r: String)
        ensures
            r@ == self.id_view(),
    {
        self.project_id.clone()
    }

    /// The stored IPFS hash, empty before initialization.
    pub fn ipfs_hash(&self) -> (r: String)
        ensures
            r@ == self.ipfs_view(),
    {
        self.ipfs_hash.clone()
    }

    /// The stored issuer; `NotInitialized` where none was ever stored.
    pub fn issuer_address(&self) -> (r: Result<Address, TokenError>)
        ensures
            match self.issuer_view() {
                Some(a) => r is Ok && r->Ok_0@ == a,
                None => r == Err::<Address, TokenError>(TokenError::NotInitialized),
            },
    {
        match &self.issuer {
            Some(a) => Ok(a.copy()),
            None => Err(TokenError::NotInitialized),
        }
    }
}

} // verus!
