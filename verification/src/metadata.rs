//! The NFT-side data the marketplace cooperates with: contract and
//! token metadata, collectibles, tokens and approvals, and the
//! interfaces a conforming NFT contract offers.

use crate::fraction::Fraction;
use crate::tokens::{AccountId, GateId, Timestamp, TokenId};
use vstd::prelude::*;

verus! {

/// Associated metadata for the NFT contract.
pub struct ContractMetadata {
    /// Required, essentially a version like "nft-1.0.0".
    pub spec: String,
    /// Required, the human-readable contract name.
    pub name: String,
    /// Required, the ticker symbol.
    pub symbol: String,
    /// A data URL for the icon, if any.
    pub icon: Option<String>,
    /// Centralized gateway known to have reliable access to
    /// decentralized storage assets referenced by `reference` or
    /// `media` URLs.
    pub base_uri: Option<String>,
    /// URL to a JSON file with more info.
    pub reference: Option<String>,
    /// Base64-encoded sha256 hash of the JSON from the reference
    /// field. Required if `reference` is included.
    pub reference_hash: Option<String>,
}

/// Associated metadata with a `GateId`.
pub struct TokenMetadata {
    /// A title for the collectible, if any.
    pub title: Option<String>,
    /// Free-form description.
    pub description: Option<String>,
    /// URL to associated media.
    pub media: Option<String>,
    /// Base64-encoded sha256 hash of content referenced by `media`.
    /// Required if `media` is included.
    pub media_hash: Option<String>,
    /// Number of copies of this set of metadata in existence when the
    /// token was minted.
    pub copies: Option<u64>,
    /// When the token was issued or minted.
    pub issued_at: Option<Timestamp>,
    /// When the token expires.
    pub expires_at: Option<Timestamp>,
    /// When the token starts being valid.
    pub starts_at: Option<Timestamp>,
    /// When the token was last updated.
    pub updated_at: Option<Timestamp>,
    /// Anything extra the NFT wants to store on-chain.
    pub extra: Option<String>,
    /// URL to an off-chain JSON file with more info.
    pub reference: Option<String>,
    /// Base64-encoded sha256 hash of the JSON from the reference
    /// field. Required if `reference` is included.
    pub reference_hash: Option<String>,
}

/// A collectible: the template from which individual tokens are
/// minted.
pub struct Collectible {
    pub gate_id: GateId,
    pub creator_id: AccountId,
    pub current_supply: u64,
    pub gate_url: String,
    pub minted_tokens: Vec<TokenId>,
    pub royalty: Fraction,
    pub metadata: TokenMetadata,
}

/// An approval entry on a token: the handle issued and the minimum
/// price the approved party must honour.
pub struct TokenApproval {
    pub approval_id: u64,
    pub min_price: u128,
}

/// A single NFT instance.
pub struct Token {
    /// The unique identifier for a `Token`. Any two different tokens
    /// will have different `token_id`s, even if they belong to
    /// different `gate_id`s.
    pub token_id: TokenId,
    pub gate_id: GateId,
    /// The owner of this token.
    pub owner_id: AccountId,
    /// When this `Token` was minted, in nanoseconds. Once minted, this
    /// field remains unchanged.
    pub created_at: u64,
    /// When this `Token` was last modified, in nanoseconds: either
    /// when created or transferred.
    pub modified_at: u64,
    /// If this `Token` was transferred, this field holds the previous
    /// owner. Otherwise it is empty.
    pub sender_id: AccountId,
    /// The accounts that can transfer this token on behalf of its
    /// owner, each with the approval issued to it.
    pub approvals: Vec<(AccountId, TokenApproval)>,
    /// Counter to assign the next approval id.
    pub approval_counter: u64,
}

/// The core interface a conforming NFT contract offers.
pub trait NonFungibleTokenCore {
    fn nft_metadata(&self) -> ContractMetadata;

    fn nft_transfer(
        &mut self,
        receiver_id: AccountId,
        token_id: TokenId,
        enforce_approval_id: Option<u64>,
        memo: Option<String>,
    );

    fn nft_total_supply(&self) -> u64;

    fn nft_token(&self, token_id: TokenId) -> Option<Token>;
}

/// The approval-management interface a conforming NFT contract offers.
pub trait NonFungibleTokenApprovalMgmt {
    fn nft_approve(&mut self, token_id: TokenId, account_id: AccountId, msg: Option<String>);

    fn nft_revoke(&mut self, token_id: TokenId, account_id: AccountId);

    fn nft_revoke_all(&mut self, token_id: TokenId);
}

/// The intake interface of a marketplace: what an NFT contract calls
/// when one of its owners approves a sale.
pub trait NonFungibleTokenApprovalsReceiver {
    fn nft_on_approve(
        &mut self,
        token_id: TokenId,
        owner_id: AccountId,
        approval_id: u64,
        msg: String,
    );
}

} // verus!
