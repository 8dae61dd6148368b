use vstd::prelude::*;

use crate::address::Address;
use crate::error::TokenError;
use crate::soulbound::{ids_minted_to, SoulboundToken, TokenMetadata, TokenRecord};

verus! {

/// Achievement tokens whose only issuer is fixed when the instance is
/// created; there is no separate initialization step.
pub struct SoulboundTokenContract {
    token: SoulboundToken,
}

impl SoulboundTokenContract {
    /// The identity allowed to mint.
    pub closed spec fn issuer_view(&self) -> Seq<char> {
        self.token.issuer_view()->Some_0
    }

    /// Every minted token; the one at position `i` has id `i`.
    pub closed spec fn tokens_view(&self) -> Seq<TokenRecord> {
        self.token.tokens_view()
    }

    pub open spec fn next_id(&self) -> nat {
        self.tokens_view().len()
    }

    pub closed spec fn wf(&self) -> bool {
        self.token.wf() && self.token.issuer_view() is Some
    }

    /// An instance in which only `authorized_issuer` may mint, holding no
    /// tokens yet.
    pub fn new(authorized_issuer: Address) -> (r: SoulboundTokenContract)
        ensures
            r.wf(),
            r.issuer_view() == authorized_issuer@,
            r.tokens_view() == Seq::<TokenRecord>::empty(),
    {
        let mut token = SoulboundToken::new();
        let _ = token.init(authorized_issuer);
        SoulboundTokenContract { token }
    }

    /// Rebuilds an instance from the ledger: its issuer and every minted
    /// token in id order.
    pub fn restore(authorized_issuer: Address, tokens: &Vec<TokenMetadata>) -> (r:
        SoulboundTokenContract)
        requires
            tokens@.len() < u64::MAX,
        ensures
            r.wf(),
            r.issuer_view() == authorized_issuer@,
            r.tokens_view() == tokens@.map_values(|t: TokenMetadata| t@),
    {
        SoulboundTokenContract { token: SoulboundToken::restore(Some(authorized_issuer), tokens) }
    }

    /// Whether `caller` is the identity allowed to mint.
    pub fn is_authorized_issuer(&self, caller: &Address) -> (r: bool)
        requires
            self.wf(),
        ensures
            r == (caller@ == self.issuer_view()),
    {
        match self.token.issuer_address() {
            Some(issuer) => issuer.same(caller),
            None => false,
        }
    }

    /// Mints a token to `owner` at the host's `timestamp` on behalf of the
    /// host-reported `invoker`; `Unauthorized` and no change where the
    /// invoker is not the issuer.
    pub fn mint(
        &mut self,
        invoker: &Address,
        owner: Address,
        project_id: String,
        trees_count: u64,
        timestamp: u64,
    ) -> (r: Result<(), TokenError>)
        requires
            old(self).wf(),
            old(self).next_id() < u64::MAX,
        ensures
            final(self).wf(),
            invoker@ != old(self).issuer_view() ==> r == Err::<(), TokenError>(
                TokenError::Unauthorized,
            ) && *final(self) == *old(self),
            invoker@ == old(self).issuer_view() ==> {
                &&& r == Ok::<(), TokenError>(())
                &&& final(self).issuer_view() == old(self).issuer_view()
                &&& final(self).tokens_view() == old(self).tokens_view().push(
                    TokenRecord { owner: owner@, project_id: project_id@, trees_count, timestamp },
                )
            },
    {
        match self.token.mint(invoker, owner, project_id, trees_count, timestamp) {
            Ok(_) => Ok(()),
            Err(e) => Err(e),
        }
    }

    /// Owner, project, tree count and timestamp of token `token_id`;
    /// `TokenNotFound` where that id was never minted.
    pub fn get_token(&self, token_id: u64) -> (r: Result<(Address, String, u64, u64), TokenError>)
        ensures
            token_id < self.next_id() ==> r is Ok && {
                let (owner, project_id, trees_count, timestamp) = r->Ok_0;
                let t = self.tokens_view()[token_id as int];
                owner@ == t.owner && project_id@ == t.project_id && trees_count == t.trees_count
                    && timestamp == t.timestamp
            },
            token_id >= self.next_id() ==> r == Err::<(Address, String, u64, u64), TokenError>(
                TokenError::TokenNotFound,
            ),
    {
        match self.token.get_token(token_id) {
            Ok(t) => Ok((t.owner, t.project_id, t.trees_count, t.timestamp)),
            Err(e) => Err(e),
        }
    }

    /// The ids of the tokens minted to `owner`, in mint order.
    pub fn get_tokens_by_owner(&self, owner: &Address) -> (r: Vec<u64>)
        requires
            self.wf(),
        ensures
            r@ == ids_minted_to(self.tokens_view(), owner@),
    {
        self.token.get_tokens_by_owner(owner)
    }
}

} // verus!
