//! Verified core of a two-contract NFT marketplace: exact fractional
//! arithmetic for royalties, a multi-index book of listings, the
//! approval-intake and buy protocols, and the payout-distribution step.
//!
//! Host-platform concerns (storage, promise scheduling, call envelopes)
//! are kept outside: every entry point here is a function from plain
//! values (caller account, attached deposit, prepaid gas, promise
//! outcome) to a new state and a description of the effects to perform.

pub mod errors;
pub mod fraction;
pub mod market;
pub mod metadata;
pub mod text;
pub mod tokens;
pub mod wire;

pub use errors::Panics;
pub use fraction::Fraction;
pub use fraction::FractionError;
pub use market::MarketContract;
pub use market::PayoutOutcome;
pub use market::PromiseOutcome;
pub use market::TransferAction;
pub use market::TransferPayoutCall;
pub use metadata::Collectible;
pub use metadata::ContractMetadata;
pub use metadata::NonFungibleTokenApprovalMgmt;
pub use metadata::NonFungibleTokenApprovalsReceiver;
pub use metadata::NonFungibleTokenCore;
pub use metadata::Token;
pub use metadata::TokenApproval;
pub use metadata::TokenMetadata;
pub use tokens::ApproveMsg;
pub use tokens::MarketApproveMsg;
pub use tokens::Payout;
pub use tokens::TokenForSale;
pub use tokens::TokenKey;
