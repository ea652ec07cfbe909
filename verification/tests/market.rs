use mg_market::market::{MarketContract, PayoutOutcome, PromiseOutcome, GAS_FOR_ROYALTIES};
use mg_market::errors::Panics;
use mg_market::tokens::MarketApproveMsg;

fn s(x: &str) -> String {
    x.to_string()
}

fn listed_market() -> MarketContract {
    let mut m = MarketContract::init();
    let r = m.nft_on_approve(
        42,
        s("alice"),
        7,
        s("{\"min_price\":\"1000\",\"gate_id\":\"G1\",\"creator_id\":\"carol\"}"),
        s("N"),
    );
    assert!(r.is_ok());
    m
}

#[test]
fn approval_creates_indexed_listing() {
    let m = listed_market();
    let by_gate = m.get_tokens_by_gate_id(&s("G1"));
    assert_eq!(by_gate.len(), 1);
    assert_eq!(by_gate[0].min_price, 1000);
    assert_eq!(by_gate[0].owner_id, "alice");
    assert_eq!(by_gate[0].nft_contract_id, "N");
    assert_eq!(by_gate[0].token_id, 42);
    assert_eq!(by_gate[0].approval_id, 7);
    assert_eq!(by_gate[0].creator_id.as_deref(), Some("carol"));

    assert_eq!(m.get_tokens_for_sale().len(), 1);
    assert_eq!(m.get_tokens_by_owner_id(&s("alice")).len(), 1);
    assert_eq!(m.get_tokens_by_creator_id(&s("carol")).len(), 1);
    assert_eq!(m.get_tokens_by_owner_id(&s("bob")).len(), 0);
}

#[test]
fn approval_with_bad_msg_is_rejected() {
    let mut m = MarketContract::init();
    let r = m.nft_on_approve(42, s("alice"), 7, s("{\"gate_id\":\"G1\"}"), s("N"));
    match r {
        Err(e) => assert_eq!(
            e.message(),
            "Could not find min_price in msg: missing field `min_price`"
        ),
        Ok(_) => panic!("a msg without min_price must be rejected"),
    }
    assert_eq!(m.get_tokens_for_sale().len(), 0);
}

#[test]
fn happy_path_buy() {
    let mut m = listed_market();
    let r = m.buy_token(s("N"), 42, s("bob"), 1500, 300_000_000_000_000);
    let call = r.unwrap();
    assert_eq!(call.nft_contract_id, "N");
    assert_eq!(call.receiver_id, "bob");
    assert_eq!(call.token_id, 42);
    assert_eq!(call.approval_id, None);
    assert_eq!(call.memo, None);
    assert_eq!(call.balance, 1500);
    assert_eq!(call.attached_deposit, 0);
    assert_eq!(call.gas, 100_000_000_000_000);
    assert_eq!(call.callback_gas, GAS_FOR_ROYALTIES);
    assert_eq!(call.callback_gas, 120_000_000_000_000);
    assert_eq!(call.callback_deposit, 0);

    // The listing is gone from the primary map and all four indices.
    assert_eq!(m.get_tokens_for_sale().len(), 0);
    assert_eq!(m.get_tokens_by_owner_id(&s("alice")).len(), 0);
    assert_eq!(m.get_tokens_by_gate_id(&s("G1")).len(), 0);
    assert_eq!(m.get_tokens_by_creator_id(&s("carol")).len(), 0);

    // The payout callback distributes the whole deposit.
    let outcome = m.make_payouts(
        s("market"),
        s("market"),
        PromiseOutcome::Successful(s("{\"alice\":\"1200\",\"carol\":\"300\"}")),
    );
    match outcome {
        PayoutOutcome::Transfers(ts) => {
            assert_eq!(ts.len(), 2);
            assert_eq!(ts[0].receiver_id, "alice");
            assert_eq!(ts[0].amount, 1200);
            assert_eq!(ts[1].receiver_id, "carol");
            assert_eq!(ts[1].amount, 300);
            assert_eq!(ts.iter().map(|t| t.amount).sum::<u128>(), 1500);
        }
        _ => panic!("a readable payout must be distributed"),
    }
}

#[test]
fn own_token_rejection() {
    let mut m = listed_market();
    let r = m.buy_token(s("N"), 42, s("alice"), 1500, 300);
    match r {
        Err(e) => {
            assert!(matches!(e, Panics::BuyOwnTokenNotAllowed));
            assert_eq!(e.message(), "Buyer cannot buy own token");
        }
        Ok(_) => panic!("an owner must not buy their own token"),
    }
    assert_eq!(m.get_tokens_for_sale().len(), 1);
    assert_eq!(m.get_tokens_by_gate_id(&s("G1")).len(), 1);
}

#[test]
fn underpayment_rejection() {
    let mut m = listed_market();
    let r = m.buy_token(s("N"), 42, s("bob"), 999, 300);
    match r {
        Err(e) => {
            assert!(matches!(e, Panics::NotEnoughDepositToBuyToken));
            assert_eq!(e.message(), "Not enough deposit to cover token minimum price");
        }
        Ok(_) => panic!("an insufficient deposit must be rejected"),
    }
    assert_eq!(m.get_tokens_for_sale().len(), 1);
}

#[test]
fn deposit_equal_to_min_price_is_accepted() {
    let mut m = listed_market();
    assert!(m.buy_token(s("N"), 42, s("bob"), 1000, 300).is_ok());
    assert_eq!(m.get_tokens_for_sale().len(), 0);
}

#[test]
fn unknown_token_rejection() {
    let mut m = listed_market();
    let r = m.buy_token(s("N"), 99, s("bob"), 1500, 300);
    match r {
        Err(e) => assert_eq!(e.message(), "Token Key `N:99` was not found"),
        Ok(_) => panic!("an unknown key must be rejected"),
    }
    assert_eq!(m.get_tokens_for_sale().len(), 1);
}

#[test]
fn revocation_removes_listing() {
    let mut m = listed_market();
    assert!(m.nft_on_revoke(42, s("N")).is_ok());
    assert_eq!(m.get_tokens_for_sale().len(), 0);
    assert_eq!(m.get_tokens_by_owner_id(&s("alice")).len(), 0);
    assert_eq!(m.get_tokens_by_gate_id(&s("G1")).len(), 0);
    assert_eq!(m.get_tokens_by_creator_id(&s("carol")).len(), 0);

    let r = m.buy_token(s("N"), 42, s("bob"), 1500, 300);
    match r {
        Err(e) => assert_eq!(e.message(), "Token Key `N:42` was not found"),
        Ok(_) => panic!("a revoked listing must not be buyable"),
    }
}

#[test]
fn revoking_an_unknown_token_fails() {
    let mut m = MarketContract::init();
    let r = m.nft_on_revoke(42, s("N"));
    match r {
        Err(e) => assert_eq!(e.message(), "Token Key `N:42` was not found"),
        Ok(_) => panic!("revoking an unknown key must fail"),
    }
}

#[test]
fn relisting_overwrites_and_reindexes() {
    let mut m = listed_market();
    let r = m.nft_on_approve(42, s("alice"), 8, s("{\"min_price\":\"2000\"}"), s("N"));
    assert!(r.is_ok());
    let all = m.get_tokens_for_sale();
    assert_eq!(all.len(), 1);
    assert_eq!(all[0].min_price, 2000);
    assert_eq!(all[0].approval_id, 8);
    assert!(all[0].gate_id.is_none());
    assert!(all[0].creator_id.is_none());
    // The new msg has no gate_id, so by_gate no longer holds the key.
    assert_eq!(m.get_tokens_by_gate_id(&s("G1")).len(), 0);
    assert_eq!(m.get_tokens_by_creator_id(&s("carol")).len(), 0);
    assert_eq!(m.get_tokens_by_owner_id(&s("alice")).len(), 1);
}

#[test]
fn batch_approval_lists_each_token() {
    let mut m = MarketContract::init();
    let mut tokens = Vec::new();
    for (id, price) in [(1u64, "100"), (2u64, "200")] {
        let msg = mg_market::wire::parse_market_approve_msg(&format!(
            "{{\"min_price\":\"{}\"}}",
            price
        ))
        .unwrap();
        tokens.push((id, msg));
    }
    m.batch_on_approve(tokens, s("alice"), s("N"));
    let all = m.get_tokens_for_sale();
    assert_eq!(all.len(), 2);
    for t in &all {
        // Batch mode carries no per-token approval handle.
        assert_eq!(t.approval_id, 0);
        assert_eq!(t.owner_id, "alice");
    }
    assert_eq!(m.get_tokens_by_owner_id(&s("alice")).len(), 2);
}

#[test]
fn insert_and_remove_sequences_keep_the_indices_exact() {
    let mut m = MarketContract::init();
    let msgs = [
        (1u64, "{\"min_price\":\"10\",\"gate_id\":\"G1\"}"),
        (2u64, "{\"min_price\":\"20\",\"gate_id\":\"G1\",\"creator_id\":\"carol\"}"),
        (3u64, "{\"min_price\":\"30\"}"),
    ];
    for (id, msg) in msgs {
        assert!(m.nft_on_approve(id, s("alice"), id, s(msg), s("N")).is_ok());
    }
    assert_eq!(m.get_tokens_for_sale().len(), 3);
    assert_eq!(m.get_tokens_by_gate_id(&s("G1")).len(), 2);
    assert_eq!(m.get_tokens_by_creator_id(&s("carol")).len(), 1);
    assert_eq!(m.get_tokens_by_owner_id(&s("alice")).len(), 3);

    assert!(m.nft_on_revoke(2, s("N")).is_ok());
    assert_eq!(m.get_tokens_for_sale().len(), 2);
    assert_eq!(m.get_tokens_by_gate_id(&s("G1")).len(), 1);
    assert_eq!(m.get_tokens_by_creator_id(&s("carol")).len(), 0);
    assert_eq!(m.get_tokens_by_owner_id(&s("alice")).len(), 2);

    assert!(m.buy_token(s("N"), 1, s("bob"), 10, 300).is_ok());
    assert_eq!(m.get_tokens_for_sale().len(), 1);
    assert_eq!(m.get_tokens_by_gate_id(&s("G1")).len(), 0);
    assert_eq!(m.get_tokens_by_owner_id(&s("alice")).len(), 1);
}

#[test]
fn listings_from_different_contracts_do_not_collide() {
    let mut m = MarketContract::init();
    assert!(m.nft_on_approve(42, s("alice"), 1, s("{\"min_price\":\"10\"}"), s("N1")).is_ok());
    assert!(m.nft_on_approve(42, s("dora"), 2, s("{\"min_price\":\"20\"}"), s("N2")).is_ok());
    assert_eq!(m.get_tokens_for_sale().len(), 2);
    assert!(m.buy_token(s("N1"), 42, s("bob"), 10, 300).is_ok());
    let rest = m.get_tokens_for_sale();
    assert_eq!(rest.len(), 1);
    assert_eq!(rest[0].nft_contract_id, "N2");
}

#[test]
fn make_payouts_rejects_other_callers() {
    let m = MarketContract::init();
    let r = m.make_payouts(
        s("mallory"),
        s("market"),
        PromiseOutcome::Successful(s("{\"alice\":\"1\"}")),
    );
    assert!(matches!(r, PayoutOutcome::NotPrivate));
}

#[test]
fn make_payouts_failure_modes() {
    let m = MarketContract::init();
    let r = m.make_payouts(s("market"), s("market"), PromiseOutcome::Failed);
    assert!(matches!(r, PayoutOutcome::TransferFailed));
    let r = m.make_payouts(s("market"), s("market"), PromiseOutcome::NotReady);
    assert!(matches!(r, PayoutOutcome::NotReady));
    let r = m.make_payouts(
        s("market"),
        s("market"),
        PromiseOutcome::Successful(s("not a payout")),
    );
    assert!(matches!(r, PayoutOutcome::BadPayout));
}

#[test]
fn zero_price_listings_are_allowed() {
    let mut m = MarketContract::init();
    assert!(m.nft_on_approve(1, s("alice"), 1, s("{\"min_price\":\"0\"}"), s("N")).is_ok());
    assert!(m.buy_token(s("N"), 1, s("bob"), 0, 300).is_ok());
}

#[test]
fn sold_token_cannot_be_bought_again() {
    // The listing is removed at the commit point, before the outbound
    // transfer resolves, so a second buy cannot find it.
    let mut m = listed_market();
    assert!(m.buy_token(s("N"), 42, s("bob"), 1500, 300).is_ok());
    let r = m.buy_token(s("N"), 42, s("dora"), 1500, 300);
    match r {
        Err(e) => assert_eq!(e.message(), "Token Key `N:42` was not found"),
        Ok(_) => panic!("a sold token must not be sold twice"),
    }
}

#[test]
fn approval_msg_with_whitespace_is_accepted() {
    let mut m = MarketContract::init();
    let r = m.nft_on_approve(
        42,
        s("alice"),
        7,
        s("{ \"min_price\": \"1000\", \"gate_id\": \"G1\" }"),
        s("N"),
    );
    assert!(r.is_ok());
    let by_gate = m.get_tokens_by_gate_id(&s("G1"));
    assert_eq!(by_gate.len(), 1);
    assert_eq!(by_gate[0].min_price, 1000);
}

#[test]
fn add_token_overwrite_keeps_indices_in_lock_step() {
    let mut m = MarketContract::init();
    let first = MarketApproveMsg {
        min_price: 1000,
        gate_id: Some(s("G1")),
        creator_id: Some(s("carol")),
    };
    m.add_token(&s("alice"), &s("N"), 42, first, 7);
    assert_eq!(m.get_tokens_by_gate_id(&s("G1")).len(), 1);
    assert_eq!(m.get_tokens_by_creator_id(&s("carol")).len(), 1);

    let second = MarketApproveMsg { min_price: 2000, gate_id: None, creator_id: None };
    m.add_token(&s("alice"), &s("N"), 42, second, 8);
    let all = m.get_tokens_for_sale();
    assert_eq!(all.len(), 1);
    assert_eq!(all[0].min_price, 2000);
    assert_eq!(all[0].approval_id, 8);
    // The overwrite left no stale entry in any optional index.
    assert_eq!(m.get_tokens_by_gate_id(&s("G1")).len(), 0);
    assert_eq!(m.get_tokens_by_creator_id(&s("carol")).len(), 0);
    assert_eq!(m.get_tokens_by_owner_id(&s("alice")).len(), 1);
}
