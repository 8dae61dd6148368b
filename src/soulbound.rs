use vstd::prelude::*;

use crate::address::Address;
use crate::error::TokenError;
use crate::table::AddressTable;

verus! {

/// What is recorded for one minted achievement token.
#[derive(Debug)]
pub struct TokenMetadata {
    pub owner: Address,
    pub project_id: String,
    pub trees_count: u64,
    pub timestamp: u64,
}

/// The mathematical content of a token record.
pub struct TokenRecord {
    pub owner: Seq<char>,
    pub project_id: Seq<char>,
    pub trees_count: u64,
    pub timestamp: u64,
}

impl View for TokenMetadata {
    type V = TokenRecord;

    open spec fn view(&self) -> TokenRecord {
        TokenRecord {
            owner: self.owner@,
            project_id: self.project_id@,
            trees_count: self.trees_count,
            timestamp: self.timestamp,
        }
    }
}

impl TokenMetadata {
    /// A second record with the same content.
    pub fn copy(&self) -> (r: TokenMetadata)
        ensures
            r@ == self@,
    {
        TokenMetadata {
            owner: self.owner.copy(),
            project_id: self.project_id.clone(),
            trees_count: self.trees_count,
            timestamp: self.timestamp,
        }
    }
}

/// The ids, in mint order, of the tokens of `tokens` minted to `owner`;
/// the token at position `i` carries id `i`.
pub open spec fn ids_minted_to(tokens: Seq<TokenRecord>, owner: Seq<char>) -> Seq<u64>
    decreases tokens.len(),
{
    if tokens.len() == 0 {
        Seq::empty()
    } else {
        let earlier = ids_minted_to(tokens.drop_last(), owner);
        if tokens.last().owner == owner {
            earlier.push((tokens.len() - 1) as u64)
        } else {
            earlier
        }
    }
}

/// The ids listed for `owner` are exactly the positions of the tokens minted
/// to `owner`: each listed id names such a token, ids strictly increase
/// (mint order, no repeats), and no token minted to `owner` is left out.
pub proof fn lemma_ids_minted_to_exact(tokens: Seq<TokenRecord>, owner: Seq<char>)
    requires
        tokens.len() <= u64::MAX,
    ensures
        forall|k: int|
            0 <= k < ids_minted_to(tokens, owner).len() ==> {
                let id = #[trigger] ids_minted_to(tokens, owner)[k];
                id < tokens.len() && tokens[id as int].owner == owner
            },
        forall|k1: int, k2: int|
            0 <= k1 < k2 < ids_minted_to(tokens, owner).len() ==> #[trigger] ids_minted_to(
                tokens,
                owner,
            )[k1] < #[trigger] ids_minted_to(tokens, owner)[k2],
        forall|i: int|
            0 <= i < tokens.len() && #[trigger] tokens[i].owner == owner ==> ids_minted_to(
                tokens,
                owner,
            ).contains(i as u64),
    decreases tokens.len(),
{
    if tokens.len() > 0 {
        let prev = tokens.drop_last();
        lemma_ids_minted_to_exact(prev, owner);
        let ids = ids_minted_to(tokens, owner);
        let earlier = ids_minted_to(prev, owner);
        assert forall|i: int|
            0 <= i < tokens.len() && #[trigger] tokens[i].owner == owner implies ids.contains(
                i as u64,
            ) by {
            if i < tokens.len() - 1 {
                assert(prev[i].owner == owner);
                let k = choose|k: int| 0 <= k < earlier.len() && earlier[k] == i as u64;
                assert(ids[k] == i as u64);
            } else {
                assert(ids[ids.len() - 1] == i as u64);
            }
        }
        assert forall|k: int|
            0 <= k < ids.len() implies {
                let id = #[trigger] ids[k];
                id < tokens.len() && tokens[id as int].owner == owner
            } by {
            if k < earlier.len() {
                assert(ids[k] == earlier[k]);
                assert(prev[earlier[k] as int] == tokens[earlier[k] as int]);
            }
        }
        assert forall|k1: int, k2: int| 0 <= k1 < k2 < ids.len() implies #[trigger] ids[k1]
            < #[trigger] ids[k2] by {
            if k2 < earlier.len() {
                assert(ids[k1] == earlier[k1]);
                assert(ids[k2] == earlier[k2]);
            } else {
                assert(ids[k1] == earlier[k1]);
                assert(earlier[k1] < prev.len());
            }
        }
    }
}

/// A non-transferable achievement token: a single issuer mints uniquely
/// numbered tokens, and an index lists each owner's tokens in mint order.
pub struct SoulboundToken {
    issuer: Option<Address>,
    tokens: Vec<TokenMetadata>,
    owner_index: AddressTable<Vec<u64>>,
}

impl SoulboundToken {
    /// The issuer stored at initialization, if any.
    pub closed spec fn issuer_view(&self) -> Option<Seq<char>> {
        match self.issuer {
            Some(a) => Some(a@),
            None => None,
        }
    }

    /// Every minted token; the one at position `i` has id `i`.
    pub closed spec fn tokens_view(&self) -> Seq<TokenRecord> {
        self.tokens@.map_values(|t: TokenMetadata| t@)
    }

    /// The id the next mint assigns.
    pub open spec fn next_id(&self) -> nat {
        self.tokens_view().len()
    }

    /// The stored index entry of `owner`, empty where none was ever written.
    pub closed spec fn index_of(&self, owner: Seq<char>) -> Seq<u64> {
        if self.owner_index@.contains_key(owner) {
            self.owner_index@[owner]@
        } else {
            Seq::empty()
        }
    }

    /// Ids fit in `u64`, and the owner index lists exactly the tokens minted
    /// to each owner, in mint order.
    pub closed spec fn wf(&self) -> bool {
        &&& self.tokens@.len() <= u64::MAX
        &&& self.owner_index.wf()
        &&& forall|a: Seq<char>| #[trigger] self.index_of(a) == ids_minted_to(self.tokens_view(), a)
    }

    /// For every owner, the index holds the ids of the tokens minted to that
    /// owner, in the order they were minted, without gaps or repeats.
    pub proof fn lemma_index_matches_mints(&self, owner: Seq<char>)
        requires
            self.wf(),
        ensures
            self.index_of(owner) == ids_minted_to(self.tokens_view(), owner),
    {
    }

    /// An instance with no issuer and no tokens.
    pub fn new() -> (r: SoulboundToken)
        ensures
            r.wf(),
            r.issuer_view() == None::<Seq<char>>,
            r.tokens_view() == Seq::<TokenRecord>::empty(),
    {
        let r = SoulboundToken { issuer: None, tokens: Vec::new(), owner_index: AddressTable::new() };
        assert(r.tokens_view() =~= Seq::<TokenRecord>::empty());
        r
    }

    /// Stores `issuer` as the only identity allowed to mint. Succeeds once;
    /// a later call fails with `AlreadyInitialized` and changes nothing.
    pub fn init(&mut self, issuer: Address) -> (r: Result<(), TokenError>)
        requires
            old(self).wf(),
        ensures
            final(self).wf(),
            old(self).issuer_view() is Some ==> r == Err::<(), TokenError>(
                TokenError::AlreadyInitialized,
            ) && *final(self) == *old(self),
            old(self).issuer_view() is None ==> r == Ok::<(), TokenError>(())
                && final(self).issuer_view() == Some(issuer@)
                && final(self).tokens_view() == old(self).tokens_view()
                && forall|a: Seq<char>| #[trigger] final(self).index_of(a) == old(self).index_of(a),
    {
        if self.issuer.is_some() {
            return Err(TokenError::AlreadyInitialized);
        }
        self.issuer = Some(issuer);
        assert(forall|a: Seq<char>| #[trigger] self.index_of(a) == old(self).index_of(a));
        Ok(())
    }

    /// Mints a token to `to`, stamped with the host's `timestamp`, and
    /// returns its id. `caller` has been authenticated by the host.
    ///
    /// Fails with `NotInitialized` where no issuer is stored and with
    /// `Unauthorized` where `caller` is not the issuer; either way nothing
    /// changes. Otherwise the token gets the next id, and that id is appended
    /// to the index entry of `to` alone.
    pub fn mint(
        &mut self,
        caller: &Address,
        to: Address,
        project_id: String,
        trees_count: u64,
        timestamp: u64,
    ) -> (r: Result<u64, TokenError>)
        requires
            old(self).wf(),
            old(self).next_id() < u64::MAX,
        ensures
            final(self).wf(),
            old(self).issuer_view() is None ==> r == Err::<u64, TokenError>(
                TokenError::NotInitialized,
            ) && *final(self) == *old(self),
            old(self).issuer_view() is Some && old(self).issuer_view() != Some(caller@) ==> r
                == Err::<u64, TokenError>(TokenError::Unauthorized) && *final(self) == *old(self),
            old(self).issuer_view() == Some(caller@) ==> {
                &&& r == Ok::<u64, TokenError>(old(self).next_id() as u64)
                &&& final(self).issuer_view() == old(self).issuer_view()
                &&& final(self).tokens_view() == old(self).tokens_view().push(
                    TokenRecord { owner: to@, project_id: project_id@, trees_count, timestamp },
                )
                &&& forall|a: Seq<char>| #[trigger]
                    final(self).index_of(a) == if a == to@ {
                        old(self).index_of(a).push(old(self).next_id() as u64)
                    } else {
                        old(self).index_of(a)
                    }
            },
    {
        match &self.issuer {
            None => {
                return Err(TokenError::NotInitialized);
            },
            Some(issuer) => {
                if !caller.same(issuer) {
                    return Err(TokenError::Unauthorized);
                }
            },
        }
        let token_id = self.tokens.len() as u64;
        let metadata = TokenMetadata { owner: to, project_id, trees_count, timestamp };
        self.append_token(metadata);
        Ok(token_id)
    }

    /// Stores `token` under the next id and appends that id to its owner's
    /// index entry.
    fn append_token(&mut self, token: TokenMetadata)
        requires
            old(self).wf(),
            old(self).next_id() < u64::MAX,
        ensures
            final(self).wf(),
            final(self).issuer == old(self).issuer,
            final(self).tokens_view() == old(self).tokens_view().push(token@),
            forall|a: Seq<char>| #[trigger]
                final(self).index_of(a) == if a == token.owner@ {
                    old(self).index_of(a).push(old(self).next_id() as u64)
                } else {
                    old(self).index_of(a)
                },
    {
        let token_id = self.tokens.len() as u64;
        let ghost old_tokens = self.tokens_view();
        let mut owner_tokens = match self.owner_index.get(&token.owner) {
            Some(ids) => copy_ids(ids),
            None => Vec::new(),
        };
        assert(owner_tokens@ == self.index_of(token.owner@));
        owner_tokens.push(token_id);
        let owner = token.owner.copy();
        self.tokens.push(token);
        self.owner_index.set(owner, owner_tokens);
        proof {
            let tv = self.tokens_view();
            assert(tv.drop_last() =~= old_tokens);
            assert forall|a: Seq<char>| #[trigger]
                self.index_of(a) == ids_minted_to(self.tokens_view(), a) by {
                assert(old(self).index_of(a) == ids_minted_to(old_tokens, a));
            }
        }
    }

    /// Rebuilds an instance from what the ledger holds: the issuer, if one
    /// was stored, and every minted token in id order. The owner index is
    /// derived from the tokens.
    pub fn restore(issuer: Option<Address>, tokens: &Vec<TokenMetadata>) -> (r: SoulboundToken)
        requires
            tokens@.len() < u64::MAX,
        ensures
            r.wf(),
            r.issuer_view() == match issuer {
                Some(a) => Some(a@),
                None => None::<Seq<char>>,
            },
            r.tokens_view() == tokens@.map_values(|t: TokenMetadata| t@),
    {
        let mut r = SoulboundToken::new();
        let ghost fresh = r;
        r.issuer = issuer;
        assert(forall|a: Seq<char>| #[trigger] r.index_of(a) == fresh.index_of(a));
        let mut i: usize = 0;
        while i < tokens.len()
            invariant
                i <= tokens@.len() < u64::MAX,
                r.wf(),
                r.issuer == issuer,
                r.tokens_view() == tokens@.subrange(0, i as int).map_values(|t: TokenMetadata| t@),
            decreases tokens@.len() - i,
        {
            r.append_token(tokens[i].copy());
            assert(tokens@.subrange(0, i + 1).map_values(|t: TokenMetadata| t@) =~= tokens@.subrange(
                0,
                i as int,
            ).map_values(|t: TokenMetadata| t@).push(tokens@[i as int]@));
            i = i + 1;
        }
        assert(tokens@.subrange(0, i as int) =~= tokens@);
        r
    }

    /// The stored issuer, if initialization has stored one.
    pub fn issuer_address(&self) -> (r: Option<&Address>)
        ensures
            match r {
                Some(a) => self.issuer_view() == Some(a@),
                None => self.issuer_view() is None,
            },
    {
        match &self.issuer {
            Some(a) => Some(a),
            None => None,
        }
    }

    /// The record of token `token_id`; `TokenNotFound` where that id was
    /// never minted.
    pub fn get_token(&self, token_id: u64) -> (r: Result<TokenMetadata, TokenError>)
        ensures
            token_id < self.next_id() ==> r is Ok && r->Ok_0@ == self.tokens_view()[token_id as int],
            token_id >= self.next_id() ==> r == Err::<TokenMetadata, TokenError>(
                TokenError::TokenNotFound,
            ),
    {
        if token_id < self.tokens.len() as u64 {
            Ok(self.tokens[token_id as usize].copy())
        } else {
            Err(TokenError::TokenNotFound)
        }
    }

    /// The ids of the tokens minted to `owner`, in mint order; empty for an
    /// owner never minted to.
    pub fn get_tokens_by_owner(&self, owner: &Address) -> (r: Vec<u64>)
        requires
            self.wf(),
        ensures
            r@ == self.index_of(owner@),
            r@ == ids_minted_to(self.tokens_view(), owner@),
    {
        assert(self.index_of(owner@) == ids_minted_to(self.tokens_view(), owner@));
        match self.owner_index.get(owner) {
            Some(ids) => copy_ids(ids),
            None => Vec::new(),
        }
    }
}

fn copy_ids(ids: &Vec<u64>) -> (r: Vec<u64>)
    ensures
        r@ == ids@,
{
    let mut r: Vec<u64> = Vec::new();
    let mut i: usize = 0;
    while i < ids.len()
        invariant
            i <= ids@.len(),
            r@ == ids@.subrange(0, i as int),
        decreases ids@.len() - i,
    {
        r.push(ids[i]);
        i = i + 1;
    }
    assert(r@ =~= ids@);
    r
}

} // verus!
