//! The data carried by the marketplace: account, gate and token
//! identifiers, the key and record of a listing, and the typed messages
//! exchanged with NFT contracts.

use vstd::prelude::*;

verus! {

/// An opaque account identifier supplied by the host platform.
pub type AccountId = String;

/// The identifier of a collectible (template).
pub type GateId = String;

/// The identifier of a token. It crosses the wire as a decimal string;
/// internally it is a native integer.
pub type TokenId = u64;

/// Unix epoch, expressed in milliseconds.
pub type Timestamp = u64;

/// In the marketplace, each token must be addressed by
/// `<nft contract id, token id>`: listings from different NFT contracts
/// may share token ids.
#[derive(Debug)]
pub struct TokenKey(pub AccountId, pub TokenId);

impl View for TokenKey {
    type V = (Seq<char>, u64);

    open spec fn view(&self) -> (Seq<char>, u64) {
        (self.0@, self.1)
    }
}

impl Clone for TokenKey {
    fn clone(&self) -> (r: Self)
        ensures
            r@ == self@,
    {
        TokenKey(self.0.clone(), self.1)
    }
}

/// The view of an `Option` of text as an `Option` of its characters.
pub open spec fn opt_view(o: Option<String>) -> Option<Seq<char>> {
    match o {
        Option::Some(s) => Option::Some(s@),
        Option::None => Option::None,
    }
}

/// Clones an optional string, keeping its view.
pub fn clone_opt_string(o: &Option<String>) -> (r: Option<String>)
    ensures
        opt_view(r) == opt_view(*o),
{
    match o {
        Option::Some(s) => Option::Some(s.clone()),
        Option::None => Option::None,
    }
}

/// The mathematical value of a listing.
#[verifier::ext_equal]
pub struct ListingV {
    pub nft_contract_id: Seq<char>,
    pub token_id: u64,
    pub owner_id: Seq<char>,
    pub approval_id: u64,
    pub min_price: u128,
    pub gate_id: Option<Seq<char>>,
    pub creator_id: Option<Seq<char>>,
}

/// Represents a token being sold in this marketplace.
#[derive(Debug)]
pub struct TokenForSale {
    /// The contract account where this token has been minted.
    pub nft_contract_id: AccountId,
    /// The token id for this token.
    pub token_id: TokenId,
    /// Indicates the owner of this token within the `nft_contract_id`.
    pub owner_id: AccountId,
    /// The approval handle the NFT contract issued for this listing.
    pub approval_id: u64,
    /// Indicates the minimum price at which this token must be sold.
    pub min_price: u128,
    /// The `gate_id` to which this token belongs, if any.
    pub gate_id: Option<GateId>,
    /// The `creator_id` of the collectible of this token, if any.
    pub creator_id: Option<AccountId>,
}

impl View for TokenForSale {
    type V = ListingV;

    open spec fn view(&self) -> ListingV {
        ListingV {
            nft_contract_id: self.nft_contract_id@,
            token_id: self.token_id,
            owner_id: self.owner_id@,
            approval_id: self.approval_id,
            min_price: self.min_price,
            gate_id: opt_view(self.gate_id),
            creator_id: opt_view(self.creator_id),
        }
    }
}

impl Clone for TokenForSale {
    fn clone(&self) -> (r: Self)
        ensures
            r@ == self@,
    {
        TokenForSale {
            nft_contract_id: self.nft_contract_id.clone(),
            token_id: self.token_id,
            owner_id: self.owner_id.clone(),
            approval_id: self.approval_id,
            min_price: self.min_price,
            gate_id: clone_opt_string(&self.gate_id),
            creator_id: clone_opt_string(&self.creator_id),
        }
    }
}

/// The message an NFT contract must attach to an approval: the minimum
/// price, and optionally the collectible and its creator.
#[derive(Debug)]
pub struct MarketApproveMsg {
    pub min_price: u128,
    pub gate_id: Option<GateId>,
    pub creator_id: Option<AccountId>,
}

/// The mathematical value of a `MarketApproveMsg`.
#[verifier::ext_equal]
pub struct MarketApproveMsgV {
    pub min_price: u128,
    pub gate_id: Option<Seq<char>>,
    pub creator_id: Option<Seq<char>>,
}

impl View for MarketApproveMsg {
    type V = MarketApproveMsgV;

    open spec fn view(&self) -> MarketApproveMsgV {
        MarketApproveMsgV {
            min_price: self.min_price,
            gate_id: opt_view(self.gate_id),
            creator_id: opt_view(self.creator_id),
        }
    }
}

impl Clone for MarketApproveMsg {
    fn clone(&self) -> (r: Self)
        ensures
            r@ == self@,
    {
        MarketApproveMsg {
            min_price: self.min_price,
            gate_id: clone_opt_string(&self.gate_id),
            creator_id: clone_opt_string(&self.creator_id),
        }
    }
}

/// The minimal approval message of the core NFT interface.
#[derive(Clone, Copy, PartialEq, Eq, Structural, Debug)]
pub struct ApproveMsg {
    pub min_price: u128,
}

/// A royalty split: each recipient account paired with its amount.
pub type Payout = Vec<(AccountId, u128)>;

} // verus!
