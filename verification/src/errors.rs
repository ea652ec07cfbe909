//! The error variants raised by the marketplace, with their stable,
//! user-visible messages.

use crate::text::dec_digits;
use crate::text::u64_to_string;
use crate::tokens::TokenKey;
use vstd::prelude::*;

verus! {

/// The faults the marketplace reports to callers. On the host platform
/// each one fails the whole invocation with its fixed message.
#[derive(Debug)]
pub enum Panics {
    /// Raised when an approval message does not carry a readable
    /// `min_price`.
    MsgFormatMinPriceMissing { reason: String },
    /// Raised when a token key has no listing.
    TokenKeyNotFound { token_key: TokenKey },
    /// Raised when a buyer attempts to buy their own token.
    BuyOwnTokenNotAllowed,
    /// Raised when the attached deposit does not cover the minimum price.
    NotEnoughDepositToBuyToken,
}

/// The message text of the not-found fault for the key `k`.
pub open spec fn token_key_not_found_msg(k: (Seq<char>, u64)) -> Seq<char> {
    "Token Key `"@ + k.0 + ":"@ + dec_digits(k.1 as nat) + "` was not found"@
}

impl Panics {
    /// The user-visible message for this fault.
    pub open spec fn spec_message(self) -> Seq<char> {
        match self {
            Panics::MsgFormatMinPriceMissing { reason } => {
                "Could not find min_price in msg: "@ + reason@
            },
            Panics::TokenKeyNotFound { token_key } => token_key_not_found_msg(token_key@),
            Panics::BuyOwnTokenNotAllowed => "Buyer cannot buy own token"@,
            Panics::NotEnoughDepositToBuyToken => {
                "Not enough deposit to cover token minimum price"@
            },
        }
    }

    /// Renders the user-visible message for this fault.
    pub fn message(&self) -> (r: String)
        ensures
            r@ == self.spec_message(),
    {
        match self {
            Panics::MsgFormatMinPriceMissing { reason } => {
                let mut s: String = String::from_str("Could not find min_price in msg: ");
                s.append(reason.as_str());
                s
            },
            Panics::TokenKeyNotFound { token_key } => {
                let mut s: String = String::from_str("Token Key `");
                s.append(token_key.0.as_str());
                s.append(":");
                let digits: String = u64_to_string(token_key.1);
                s.append(digits.as_str());
                s.append("` was not found");
                proof {
                    assert(s@ =~= token_key_not_found_msg(token_key@));
                }
                s
            },
            Panics::BuyOwnTokenNotAllowed => String::from_str("Buyer cannot buy own token"),
            Panics::NotEnoughDepositToBuyToken => {
                String::from_str("Not enough deposit to cover token minimum price")
            },
        }
    }
}

} // verus!
