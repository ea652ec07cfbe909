//! The marketplace contract: a single authoritative map of listings
//! plus four secondary indices kept in lock-step, the approval-intake
//! entry points, the two-phase buy protocol, and the payout callback.
//!
//! The book's invariants: a key is listed iff the by-nft and by-owner
//! indices say so; the by-gate and by-creator indices hold exactly the
//! keys whose listings carry the matching optional field; and no two
//! listings share a key. Every mutating entry point preserves them.

use crate::errors::Panics;
use crate::wire::{spec_approve_msg, spec_payout, parse_market_approve_msg, parse_payout};
use crate::tokens::{
    AccountId, GateId, ListingV, MarketApproveMsg, TokenForSale, TokenId, TokenKey,
    clone_opt_string, opt_view,
};
use vstd::pervasive::unreached;
use vstd::prelude::*;

verus! {

/// Gas reserved for the payout-distribution callback.
pub const GAS_FOR_ROYALTIES: u64 = 120_000_000_000_000;

/// Value attached to outbound protocol calls: none.
pub const NO_DEPOSIT: u128 = 0;

/// The key under which a listing is stored.
pub open spec fn key_of(t: ListingV) -> (Seq<char>, u64) {
    (t.nft_contract_id, t.token_id)
}

/// Whether some listing in `s` has the key `k`.
pub open spec fn has_key(s: Seq<TokenForSale>, k: (Seq<char>, u64)) -> bool {
    exists|i: int| 0 <= i < s.len() && key_of(s[i]@) == k
}

/// Whether the listings of `s` have pairwise distinct keys.
pub open spec fn unique_keys(s: Seq<TokenForSale>) -> bool {
    forall|i: int, j: int| 0 <= i < j < s.len() ==> key_of(s[i]@) != key_of(s[j]@)
}

/// The map denoted by a sequence of listings; on duplicate keys the
/// later entry wins.
pub open spec fn listing_map(s: Seq<TokenForSale>) -> Map<(Seq<char>, u64), ListingV>
    decreases s.len(),
{
    if s.len() == 0 {
        Map::empty()
    } else {
        listing_map(s.drop_last()).insert(key_of(s.last()@), s.last()@)
    }
}

/// The domain of `listing_map` is exactly the set of keys occurring in
/// the sequence.
proof fn lemma_listing_map_dom(s: Seq<TokenForSale>)
    ensures
        forall|k: (Seq<char>, u64)| #![auto] listing_map(s).contains_key(k) <==> has_key(s, k),
    decreases s.len(),
{
    if s.len() == 0 {
    } else {
        let d = s.drop_last();
        lemma_listing_map_dom(d);
        assert(forall|x: int| 0 <= x < d.len() ==> d[x] == s[x]);
        assert forall|k: (Seq<char>, u64)| #![auto]
            listing_map(s).contains_key(k) <==> has_key(s, k) by {
            let lk = key_of(s.last()@);
            if listing_map(s).contains_key(k) {
                if k == lk {
                    assert(key_of(s[s.len() - 1]@) == k);
                    assert(has_key(s, k));
                } else {
                    assert(listing_map(d).contains_key(k));
                    assert(has_key(d, k));
                    let i = choose|i: int| 0 <= i < d.len() && key_of(d[i]@) == k;
                    assert(key_of(s[i]@) == k);
                    assert(has_key(s, k));
                }
            }
            if has_key(s, k) {
                let i = choose|i: int| 0 <= i < s.len() && key_of(s[i]@) == k;
                if i < s.len() - 1 {
                    assert(key_of(d[i]@) == k);
                    assert(has_key(d, k));
                    assert(listing_map(d).contains_key(k));
                    assert(listing_map(s).contains_key(k));
                } else {
                    assert(k == lk);
                    assert(listing_map(s).contains_key(k));
                }
            }
        }
    }
}

/// Under unique keys, the map sends each occurring key to its listing.
proof fn lemma_listing_map_val(s: Seq<TokenForSale>, i: int)
    requires
        unique_keys(s),
        0 <= i < s.len(),
    ensures
        listing_map(s).contains_key(key_of(s[i]@)),
        listing_map(s)[key_of(s[i]@)] == s[i]@,
    decreases s.len(),
{
    if i == s.len() - 1 {
    } else {
        let d = s.drop_last();
        assert(unique_keys(d)) by {
            assert(forall|x: int, y: int|
                0 <= x < y < d.len() ==> key_of(d[x]@) == key_of(s[x]@) && key_of(d[y]@)
                    == key_of(s[y]@));
        }
        lemma_listing_map_val(d, i);
        assert(key_of(s[i]@) != key_of(s[s.len() - 1]@));
    }
}

/// Removing index `i` removes exactly the key at `i` from the denoted
/// map, and keeps the keys unique.
proof fn lemma_primary_remove(s: Seq<TokenForSale>, i: int)
    requires
        unique_keys(s),
        0 <= i < s.len(),
    ensures
        unique_keys(s.remove(i)),
        forall|k: (Seq<char>, u64)| #![auto]
            has_key(s.remove(i), k) <==> (has_key(s, k) && k != key_of(s[i]@)),
        listing_map(s.remove(i)) =~= listing_map(s).remove(key_of(s[i]@)),
{
    let t = s.remove(i);
    let rk = key_of(s[i]@);
    assert(forall|x: int| 0 <= x < i ==> t[x] == s[x]);
    assert(forall|x: int| i <= x < t.len() ==> t[x] == s[x + 1]);
    assert forall|k: (Seq<char>, u64)| #![auto]
        has_key(t, k) <==> (has_key(s, k) && k != rk) by {
        if has_key(t, k) {
            let x = choose|x: int| 0 <= x < t.len() && key_of(t[x]@) == k;
            if x < i {
                assert(key_of(s[x]@) == k);
            } else {
                assert(key_of(s[x + 1]@) == k);
            }
        }
        if has_key(s, k) && k != rk {
            let x = choose|x: int| 0 <= x < s.len() && key_of(s[x]@) == k;
            if x < i {
                assert(key_of(t[x]@) == k);
            } else {
                assert(x > i);
                assert(key_of(t[x - 1]@) == k);
            }
        }
    }
    assert(unique_keys(t)) by {
        assert forall|x: int, y: int| 0 <= x < y < t.len() implies key_of(t[x]@) != key_of(
            t[y]@,
        ) by {
            let ox: int = if x < i {
                x
            } else {
                x + 1
            };
            let oy: int = if y < i {
                y
            } else {
                y + 1
            };
            assert(t[x] == s[ox] && t[y] == s[oy]);
        }
    }
    lemma_listing_map_dom(s);
    lemma_listing_map_dom(t);
    assert forall|k: (Seq<char>, u64)|
        listing_map(t).contains_key(k) implies listing_map(t)[k] == listing_map(s).remove(rk)[k]
        by {
        assert(has_key(t, k));
        let x = choose|x: int| 0 <= x < t.len() && key_of(t[x]@) == k;
        assert(0 <= x < t.len());
        lemma_listing_map_val(t, x);
        let ox: int = if x < i {
            x
        } else {
            x + 1
        };
        assert(t[x] == s[ox]);
        lemma_listing_map_val(s, ox);
        assert(k != rk);
    }
    assert forall|k: (Seq<char>, u64)| #![auto]
        listing_map(t).contains_key(k) <==> listing_map(s).remove(rk).contains_key(k) by {
        assert(listing_map(t).contains_key(k) <==> has_key(t, k));
        assert(listing_map(s).contains_key(k) <==> has_key(s, k));
        assert(has_key(t, k) <==> (has_key(s, k) && k != rk));
    }
    assert(listing_map(t) =~= listing_map(s).remove(rk));
}

/// Pushing a listing with a fresh key inserts it into the denoted map
/// and keeps the keys unique.
proof fn lemma_primary_push(s: Seq<TokenForSale>, t: TokenForSale)
    requires
        unique_keys(s),
        !has_key(s, key_of(t@)),
    ensures
        unique_keys(s.push(t)),
        forall|k: (Seq<char>, u64)| #![auto]
            has_key(s.push(t), k) <==> (has_key(s, k) || k == key_of(t@)),
        listing_map(s.push(t)) =~= listing_map(s).insert(key_of(t@), t@),
{
    let p = s.push(t);
    assert(p.drop_last() =~= s);
    assert(p.last() == t);
    assert forall|k: (Seq<char>, u64)| #![auto]
        has_key(p, k) <==> (has_key(s, k) || k == key_of(t@)) by {
        if has_key(p, k) {
            let x = choose|x: int| 0 <= x < p.len() && key_of(p[x]@) == k;
            if x < s.len() {
                assert(key_of(s[x]@) == k);
            }
        }
        if has_key(s, k) {
            let x = choose|x: int| 0 <= x < s.len() && key_of(s[x]@) == k;
            assert(key_of(p[x]@) == k);
        }
        if k == key_of(t@) {
            assert(key_of(p[p.len() - 1]@) == k);
        }
    }
    assert(unique_keys(p)) by {
        assert forall|x: int, y: int| 0 <= x < y < p.len() implies key_of(p[x]@) != key_of(
            p[y]@,
        ) by {
            if y == p.len() - 1 {
                assert(p[x] == s[x]);
                assert(key_of(s[x]@) != key_of(t@));
            } else {
                assert(p[x] == s[x] && p[y] == s[y]);
            }
        }
    }
}

/// Whether some key in `s` views as `k`.
pub open spec fn keyset_has(s: Seq<TokenKey>, k: (Seq<char>, u64)) -> bool {
    exists|i: int| 0 <= i < s.len() && s[i]@ == k
}

/// Whether the keys of `s` are pairwise distinct (as values).
pub open spec fn keyset_unique(s: Seq<TokenKey>) -> bool {
    forall|i: int, j: int| 0 <= i < j < s.len() ==> s[i]@ != s[j]@
}

proof fn lemma_keyset_remove(s: Seq<TokenKey>, j: int)
    requires
        keyset_unique(s),
        0 <= j < s.len(),
    ensures
        keyset_unique(s.remove(j)),
        forall|k: (Seq<char>, u64)| #![auto]
            keyset_has(s.remove(j), k) <==> (keyset_has(s, k) && k != s[j]@),
{
    let t = s.remove(j);
    assert(forall|x: int| 0 <= x < j ==> t[x] == s[x]);
    assert(forall|x: int| j <= x < t.len() ==> t[x] == s[x + 1]);
    assert forall|k: (Seq<char>, u64)| #![auto]
        keyset_has(t, k) <==> (keyset_has(s, k) && k != s[j]@) by {
        if keyset_has(t, k) {
            let x = choose|x: int| 0 <= x < t.len() && t[x]@ == k;
            if x < j {
                assert(s[x]@ == k);
            } else {
                assert(s[x + 1]@ == k);
            }
        }
        if keyset_has(s, k) && k != s[j]@ {
            let x = choose|x: int| 0 <= x < s.len() && s[x]@ == k;
            if x < j {
                assert(t[x]@ == k);
            } else {
                assert(x > j);
                assert(t[x - 1]@ == k);
            }
        }
    }
    assert(keyset_unique(t)) by {
        assert forall|x: int, y: int| 0 <= x < y < t.len() implies t[x]@ != t[y]@ by {
            let ox: int = if x < j {
                x
            } else {
                x + 1
            };
            let oy: int = if y < j {
                y
            } else {
                y + 1
            };
            assert(t[x] == s[ox] && t[y] == s[oy]);
        }
    }
}

proof fn lemma_keyset_push(s: Seq<TokenKey>, p: TokenKey)
    requires
        keyset_unique(s),
        !keyset_has(s, p@),
    ensures
        keyset_unique(s.push(p)),
        forall|k: (Seq<char>, u64)| #![auto]
            keyset_has(s.push(p), k) <==> (keyset_has(s, k) || k == p@),
{
    let t = s.push(p);
    assert forall|k: (Seq<char>, u64)| #![auto]
        keyset_has(t, k) <==> (keyset_has(s, k) || k == p@) by {
        if keyset_has(t, k) {
            let x = choose|x: int| 0 <= x < t.len() && t[x]@ == k;
            if x < s.len() {
                assert(s[x]@ == k);
            }
        }
        if keyset_has(s, k) {
            let x = choose|x: int| 0 <= x < s.len() && s[x]@ == k;
            assert(t[x]@ == k);
        }
        if k == p@ {
            assert(t[t.len() - 1]@ == k);
        }
    }
    assert(keyset_unique(t)) by {
        assert forall|x: int, y: int| 0 <= x < y < t.len() implies t[x]@ != t[y]@ by {
            if y == t.len() - 1 {
                assert(t[x] == s[x]);
                assert(s[x]@ != p@);
            } else {
                assert(t[x] == s[x] && t[y] == s[y]);
            }
        }
    }
}

/// Whether some pair in `s` views as `(a, k)`.
pub open spec fn pairs_has(s: Seq<(String, TokenKey)>, a: Seq<char>, k: (Seq<char>, u64)) -> bool {
    exists|i: int| 0 <= i < s.len() && s[i].0@ == a && s[i].1@ == k
}

/// Whether the pairs of `s` are pairwise distinct (as values).
pub open spec fn pairs_unique(s: Seq<(String, TokenKey)>) -> bool {
    forall|i: int, j: int|
        0 <= i < j < s.len() ==> !(s[i].0@ == s[j].0@ && s[i].1@ == s[j].1@)
}

proof fn lemma_pairs_remove(s: Seq<(String, TokenKey)>, j: int)
    requires
        pairs_unique(s),
        0 <= j < s.len(),
    ensures
        pairs_unique(s.remove(j)),
        forall|a: Seq<char>, k: (Seq<char>, u64)| #![auto]
            pairs_has(s.remove(j), a, k) <==> (pairs_has(s, a, k) && !(a == s[j].0@ && k
                == s[j].1@)),
{
    let t = s.remove(j);
    assert(forall|x: int| 0 <= x < j ==> t[x] == s[x]);
    assert(forall|x: int| j <= x < t.len() ==> t[x] == s[x + 1]);
    assert forall|a: Seq<char>, k: (Seq<char>, u64)| #![auto]
        pairs_has(t, a, k) <==> (pairs_has(s, a, k) && !(a == s[j].0@ && k == s[j].1@)) by {
        if pairs_has(t, a, k) {
            let x = choose|x: int| 0 <= x < t.len() && t[x].0@ == a && t[x].1@ == k;
            if x < j {
                assert(s[x].0@ == a && s[x].1@ == k);
            } else {
                assert(s[x + 1].0@ == a && s[x + 1].1@ == k);
            }
        }
        if pairs_has(s, a, k) && !(a == s[j].0@ && k == s[j].1@) {
            let x = choose|x: int| 0 <= x < s.len() && s[x].0@ == a && s[x].1@ == k;
            if x < j {
                assert(t[x].0@ == a && t[x].1@ == k);
            } else {
                assert(x > j);
                assert(t[x - 1].0@ == a && t[x - 1].1@ == k);
            }
        }
    }
    assert(pairs_unique(t)) by {
        assert forall|x: int, y: int| 0 <= x < y < t.len() implies !(t[x].0@ == t[y].0@
            && t[x].1@ == t[y].1@) by {
            let ox: int = if x < j {
                x
            } else {
                x + 1
            };
            let oy: int = if y < j {
                y
            } else {
                y + 1
            };
            assert(t[x] == s[ox] && t[y] == s[oy]);
        }
    }
}

proof fn lemma_pairs_push(s: Seq<(String, TokenKey)>, p: (String, TokenKey))
    requires
        pairs_unique(s),
        !pairs_has(s, p.0@, p.1@),
    ensures
        pairs_unique(s.push(p)),
        forall|a: Seq<char>, k: (Seq<char>, u64)| #![auto]
            pairs_has(s.push(p), a, k) <==> (pairs_has(s, a, k) || (a == p.0@ && k == p.1@)),
{
    let t = s.push(p);
    assert forall|a: Seq<char>, k: (Seq<char>, u64)| #![auto]
        pairs_has(t, a, k) <==> (pairs_has(s, a, k) || (a == p.0@ && k == p.1@)) by {
        if pairs_has(t, a, k) {
            let x = choose|x: int| 0 <= x < t.len() && t[x].0@ == a && t[x].1@ == k;
            if x < s.len() {
                assert(s[x].0@ == a && s[x].1@ == k);
            }
        }
        if pairs_has(s, a, k) {
            let x = choose|x: int| 0 <= x < s.len() && s[x].0@ == a && s[x].1@ == k;
            assert(t[x].0@ == a && t[x].1@ == k);
        }
        if a == p.0@ && k == p.1@ {
            assert(t[t.len() - 1].0@ == a && t[t.len() - 1].1@ == k);
        }
    }
    assert(pairs_unique(t)) by {
        assert forall|x: int, y: int| 0 <= x < y < t.len() implies !(t[x].0@ == t[y].0@
            && t[x].1@ == t[y].1@) by {
            if y == t.len() - 1 {
                assert(t[x] == s[x]);
            } else {
                assert(t[x] == s[x] && t[y] == s[y]);
            }
        }
    }
}

/// Lists all tokens for sale, indexed four ways.
pub struct MarketContract {
    /// The authoritative listings, keyed by `(nft contract, token id)`.
    tokens_for_sale: Vec<TokenForSale>,
    /// Membership index: the keys currently listed.
    tokens_by_nft_id: Vec<TokenKey>,
    /// Keys listed under each collectible's gate id.
    tokens_by_gate_id: Vec<(GateId, TokenKey)>,
    /// Keys listed under each owner.
    tokens_by_owner_id: Vec<(AccountId, TokenKey)>,
    /// Keys listed under each collectible's creator.
    tokens_by_creator_id: Vec<(AccountId, TokenKey)>,
}

impl MarketContract {
    /// The authoritative map of listings.
    pub closed spec fn listings(self) -> Map<(Seq<char>, u64), ListingV> {
        listing_map(self.tokens_for_sale@)
    }

    /// Whether the by-nft index holds the key `k`.
    pub closed spec fn nft_index_has(self, k: (Seq<char>, u64)) -> bool {
        keyset_has(self.tokens_by_nft_id@, k)
    }

    /// Whether the by-gate index holds `k` under gate id `g`.
    pub closed spec fn gate_index_has(self, g: Seq<char>, k: (Seq<char>, u64)) -> bool {
        pairs_has(self.tokens_by_gate_id@, g, k)
    }

    /// Whether the by-owner index holds `k` under the owner `a`.
    pub closed spec fn owner_index_has(self, a: Seq<char>, k: (Seq<char>, u64)) -> bool {
        pairs_has(self.tokens_by_owner_id@, a, k)
    }

    /// Whether the by-creator index holds `k` under the creator `a`.
    pub closed spec fn creator_index_has(self, a: Seq<char>, k: (Seq<char>, u64)) -> bool {
        pairs_has(self.tokens_by_creator_id@, a, k)
    }

    /// The book's invariants: unique keys throughout; a key is listed
    /// iff the by-nft and by-owner indices say so; the by-gate and
    /// by-creator indices hold exactly the keys whose listings carry
    /// the matching optional field; and every listing records the key
    /// it is stored under.
    pub closed spec fn wf(self) -> bool {
        &&& unique_keys(self.tokens_for_sale@)
        &&& keyset_unique(self.tokens_by_nft_id@)
        &&& pairs_unique(self.tokens_by_gate_id@)
        &&& pairs_unique(self.tokens_by_owner_id@)
        &&& pairs_unique(self.tokens_by_creator_id@)
        &&& forall|k: (Seq<char>, u64)| #![auto]
            self.nft_index_has(k) <==> self.listings().contains_key(k)
        &&& forall|a: Seq<char>, k: (Seq<char>, u64)| #![auto]
            self.owner_index_has(a, k) <==> (self.listings().contains_key(k)
                && self.listings()[k].owner_id == a)
        &&& forall|g: Seq<char>, k: (Seq<char>, u64)| #![auto]
            self.gate_index_has(g, k) <==> (self.listings().contains_key(k)
                && self.listings()[k].gate_id == Option::Some(g))
        &&& forall|a: Seq<char>, k: (Seq<char>, u64)| #![auto]
            self.creator_index_has(a, k) <==> (self.listings().contains_key(k)
                && self.listings()[k].creator_id == Option::Some(a))
        &&& forall|k: (Seq<char>, u64)| #![auto]
            self.listings().contains_key(k) ==> key_of(self.listings()[k]) == k
    }

    /// Initializes the Market contract with an empty book.
    pub fn init() -> (r: Self)
        ensures
            r.wf(),
            r.listings() =~= Map::<(Seq<char>, u64), ListingV>::empty(),
    {
        let r = MarketContract {
            tokens_for_sale: Vec::new(),
            tokens_by_nft_id: Vec::new(),
            tokens_by_gate_id: Vec::new(),
            tokens_by_owner_id: Vec::new(),
            tokens_by_creator_id: Vec::new(),
        };
        proof {
            lemma_listing_map_dom(r.tokens_for_sale@);
        }
        r
    }
}

/// Finds the position of the listing with the given key, if any.
fn find_listing_index(v: &Vec<TokenForSale>, contract: &AccountId, token_id: TokenId) -> (r:
    Option<usize>)
    ensures
        match r {
            Option::Some(i) => i < v.len() && key_of(v@[i as int]@) == (contract@, token_id),
            Option::None => !has_key(v@, (contract@, token_id)),
        },
{
    let mut i: usize = 0;
    while i < v.len()
        invariant
            0 <= i <= v.len(),
            forall|j: int| 0 <= j < i ==> key_of(v@[j]@) != (contract@, token_id),
        decreases v.len() - i,
    {
        if v[i].nft_contract_id == *contract && v[i].token_id == token_id {
            return Option::Some(i);
        }
        i = i + 1;
    }
    Option::None
}

/// Finds the position of the given key in the by-nft index; the key
/// must be there.
fn find_key_index(v: &Vec<TokenKey>, k: &TokenKey) -> (r: usize)
    requires
        keyset_has(v@, k@),
    ensures
        r < v.len() && v@[r as int]@ == k@,
{
    let mut i: usize = 0;
    while i < v.len()
        invariant
            0 <= i <= v.len(),
            keyset_has(v@, k@),
            forall|j: int| 0 <= j < i ==> v@[j]@ != k@,
        decreases v.len() - i,
    {
        if v[i].0 == k.0 && v[i].1 == k.1 {
            return i;
        }
        i = i + 1;
    }
    proof {
        let x = choose|x: int| 0 <= x < v@.len() && v@[x]@ == k@;
        assert(false);
    }
    unreached()
}

/// Finds the position of the pair `(a, k)` in a secondary index; the
/// pair must be there.
fn find_pair_index(v: &Vec<(String, TokenKey)>, a: &String, k: &TokenKey) -> (r: usize)
    requires
        pairs_has(v@, a@, k@),
    ensures
        r < v.len() && v@[r as int].0@ == a@ && v@[r as int].1@ == k@,
{
    let mut i: usize = 0;
    while i < v.len()
        invariant
            0 <= i <= v.len(),
            pairs_has(v@, a@, k@),
            forall|j: int| 0 <= j < i ==> !(v@[j].0@ == a@ && v@[j].1@ == k@),
        decreases v.len() - i,
    {
        if v[i].0 == *a && v[i].1.0 == k.0 && v[i].1.1 == k.1 {
            return i;
        }
        i = i + 1;
    }
    proof {
        let x = choose|x: int| 0 <= x < v@.len() && v@[x].0@ == a@ && v@[x].1@ == k@;
        assert(false);
    }
    unreached()
}

impl MarketContract {
    /// Removes the listing under `key` from the primary map and from
    /// every index implied by its fields. The absence of an implied
    /// index entry would be an invariant violation; under `wf` it is
    /// statically unreachable.
    fn remove_listing(&mut self, key: &TokenKey)
        requires
            old(self).wf(),
            old(self).listings().contains_key(key@),
        ensures
            final(self).wf(),
            final(self).listings() =~= old(self).listings().remove(key@),
    {
        proof {
            lemma_listing_map_dom(self.tokens_for_sale@);
        }
        let i: usize = match find_listing_index(&self.tokens_for_sale, &key.0, key.1) {
            Option::Some(i) => i,
            Option::None => unreached(),
        };
        proof {
            lemma_listing_map_val(self.tokens_for_sale@, i as int);
        }
        let owner: AccountId = self.tokens_for_sale[i].owner_id.clone();
        let gate: Option<GateId> = clone_opt_string(&self.tokens_for_sale[i].gate_id);
        let creator: Option<AccountId> = clone_opt_string(&self.tokens_for_sale[i].creator_id);
        let ghost old_book = *self;
        let ghost k = key@;
        let ghost listing = self.tokens_for_sale@[i as int]@;

        proof {
            lemma_primary_remove(self.tokens_for_sale@, i as int);
        }
        let _removed = self.tokens_for_sale.remove(i);

        proof {
            assert(old_book.listings()[k] == listing);
            assert(listing.owner_id == owner@);
            assert(listing.gate_id == opt_view(gate));
            assert(listing.creator_id == opt_view(creator));
            assert(old_book.nft_index_has(k));
            assert(keyset_has(self.tokens_by_nft_id@, key@));
        }
        let j_nft: usize = find_key_index(&self.tokens_by_nft_id, key);
        proof {
            lemma_keyset_remove(self.tokens_by_nft_id@, j_nft as int);
        }
        let _removed_nft = self.tokens_by_nft_id.remove(j_nft);

        proof {
            assert(old_book.owner_index_has(owner@, k));
            assert(pairs_has(self.tokens_by_owner_id@, owner@, key@));
        }
        let j_owner: usize = find_pair_index(&self.tokens_by_owner_id, &owner, key);
        proof {
            lemma_pairs_remove(self.tokens_by_owner_id@, j_owner as int);
        }
        let _removed_owner = self.tokens_by_owner_id.remove(j_owner);

        match &gate {
            Option::Some(g) => {
                proof {
                    assert(listing.gate_id == Option::Some(g@));
                    assert(old_book.gate_index_has(g@, k));
                    assert(pairs_has(self.tokens_by_gate_id@, g@, key@));
                }
                let j_gate: usize = find_pair_index(&self.tokens_by_gate_id, g, key);
                proof {
                    lemma_pairs_remove(self.tokens_by_gate_id@, j_gate as int);
                }
                let _removed_gate = self.tokens_by_gate_id.remove(j_gate);
            },
            Option::None => {},
        }

        match &creator {
            Option::Some(c) => {
                proof {
                    assert(listing.creator_id == Option::Some(c@));
                    assert(old_book.creator_index_has(c@, k));
                    assert(pairs_has(self.tokens_by_creator_id@, c@, key@));
                }
                let j_creator: usize = find_pair_index(&self.tokens_by_creator_id, c, key);
                proof {
                    lemma_pairs_remove(self.tokens_by_creator_id@, j_creator as int);
                }
                let _removed_creator = self.tokens_by_creator_id.remove(j_creator);
            },
            Option::None => {},
        }

        proof {
            let lm = old_book.listings();
            let lm2 = self.listings();
            assert(lm2 =~= lm.remove(k));
            assert(listing == lm[k]);
            assert(listing.owner_id == owner@);
            assert(listing.gate_id == opt_view(gate));
            assert(listing.creator_id == opt_view(creator));
            assert forall|k2: (Seq<char>, u64)| #![auto]
                self.nft_index_has(k2) <==> lm2.contains_key(k2) by {
                assert(self.nft_index_has(k2) <==> (old_book.nft_index_has(k2) && k2 != k));
            }
            assert forall|a: Seq<char>, k2: (Seq<char>, u64)| #![auto]
                self.owner_index_has(a, k2) <==> (lm2.contains_key(k2) && lm2[k2].owner_id
                    == a) by {
                assert(self.owner_index_has(a, k2) <==> (old_book.owner_index_has(a, k2) && !(a
                    == owner@ && k2 == k)));
                if k2 != k && lm.contains_key(k2) {
                    assert(lm2[k2] == lm[k2]);
                }
            }
            assert forall|g: Seq<char>, k2: (Seq<char>, u64)| #![auto]
                self.gate_index_has(g, k2) <==> (lm2.contains_key(k2) && lm2[k2].gate_id
                    == Option::Some(g)) by {
                match opt_view(gate) {
                    Option::Some(gv) => {
                        assert(self.gate_index_has(g, k2) <==> (old_book.gate_index_has(g, k2)
                            && !(g == gv && k2 == k)));
                    },
                    Option::None => {
                        assert(self.gate_index_has(g, k2) <==> old_book.gate_index_has(g, k2));
                    },
                }
                if k2 != k && lm.contains_key(k2) {
                    assert(lm2[k2] == lm[k2]);
                }
            }
            assert forall|a: Seq<char>, k2: (Seq<char>, u64)| #![auto]
                self.creator_index_has(a, k2) <==> (lm2.contains_key(k2) && lm2[k2].creator_id
                    == Option::Some(a)) by {
                match opt_view(creator) {
                    Option::Some(cv) => {
                        assert(self.creator_index_has(a, k2) <==> (old_book.creator_index_has(
                            a,
                            k2,
                        ) && !(a == cv && k2 == k)));
                    },
                    Option::None => {
                        assert(self.creator_index_has(a, k2) <==> old_book.creator_index_has(
                            a,
                            k2,
                        ));
                    },
                }
                if k2 != k && lm.contains_key(k2) {
                    assert(lm2[k2] == lm[k2]);
                }
            }
            assert forall|k2: (Seq<char>, u64)| #![auto]
                lm2.contains_key(k2) implies key_of(lm2[k2]) == k2 by {
                assert(lm2[k2] == lm[k2]);
            }
        }
    }

    /// Writes `t` into the book under its key, overwriting any existing
    /// listing under that key, and updates all applicable indices.
    fn insert_listing(&mut self, t: TokenForSale)
        requires
            old(self).wf(),
        ensures
            final(self).wf(),
            final(self).listings() =~= old(self).listings().insert(key_of(t@), t@),
    {
        let key = TokenKey(t.nft_contract_id.clone(), t.token_id);
        proof {
            lemma_listing_map_dom(self.tokens_for_sale@);
        }
        match find_listing_index(&self.tokens_for_sale, &key.0, key.1) {
            Option::Some(i) => {
                proof {
                    assert(key_of(self.tokens_for_sale@[i as int]@) == key@);
                    assert(has_key(self.tokens_for_sale@, key@));
                }
                self.remove_listing(&key);
            },
            Option::None => {},
        }
        let ghost mid_book = *self;
        let ghost k = key_of(t@);
        let ghost lm = mid_book.listings();
        proof {
            lemma_listing_map_dom(self.tokens_for_sale@);
            assert(!lm.contains_key(k));
            lemma_primary_push(self.tokens_for_sale@, t);
        }
        let owner: AccountId = t.owner_id.clone();
        let gate: Option<GateId> = clone_opt_string(&t.gate_id);
        let creator: Option<AccountId> = clone_opt_string(&t.creator_id);
        let ghost tv = t@;
        self.tokens_for_sale.push(t);

        let key_entry: TokenKey = key.clone();
        proof {
            assert(!mid_book.nft_index_has(k));
            lemma_keyset_push(self.tokens_by_nft_id@, key_entry);
        }
        self.tokens_by_nft_id.push(key_entry);

        let owner_entry: (AccountId, TokenKey) = (owner.clone(), key.clone());
        proof {
            assert(!mid_book.owner_index_has(owner@, k));
            lemma_pairs_push(self.tokens_by_owner_id@, owner_entry);
        }
        self.tokens_by_owner_id.push(owner_entry);

        match &gate {
            Option::Some(g) => {
                let gate_entry: (GateId, TokenKey) = (g.clone(), key.clone());
                proof {
                    assert(!mid_book.gate_index_has(g@, k));
                    lemma_pairs_push(self.tokens_by_gate_id@, gate_entry);
                }
                self.tokens_by_gate_id.push(gate_entry);
            },
            Option::None => {},
        }

        match &creator {
            Option::Some(c) => {
                let creator_entry: (AccountId, TokenKey) = (c.clone(), key.clone());
                proof {
                    assert(!mid_book.creator_index_has(c@, k));
                    lemma_pairs_push(self.tokens_by_creator_id@, creator_entry);
                }
                self.tokens_by_creator_id.push(creator_entry);
            },
            Option::None => {},
        }

        proof {
            let lm2 = self.listings();
            assert(lm2 =~= lm.insert(k, tv));
            assert forall|k2: (Seq<char>, u64)| #![auto]
                self.nft_index_has(k2) <==> lm2.contains_key(k2) by {
                assert(self.nft_index_has(k2) <==> (mid_book.nft_index_has(k2) || k2 == k));
            }
            assert forall|a: Seq<char>, k2: (Seq<char>, u64)| #![auto]
                self.owner_index_has(a, k2) <==> (lm2.contains_key(k2) && lm2[k2].owner_id
                    == a) by {
                assert(self.owner_index_has(a, k2) <==> (mid_book.owner_index_has(a, k2) || (a
                    == owner@ && k2 == k)));
                if k2 != k && lm.contains_key(k2) {
                    assert(lm2[k2] == lm[k2]);
                }
            }
            assert forall|g: Seq<char>, k2: (Seq<char>, u64)| #![auto]
                self.gate_index_has(g, k2) <==> (lm2.contains_key(k2) && lm2[k2].gate_id
                    == Option::Some(g)) by {
                match opt_view(gate) {
                    Option::Some(gv) => {
                        assert(self.gate_index_has(g, k2) <==> (mid_book.gate_index_has(g, k2)
                            || (g == gv && k2 == k)));
                        assert(tv.gate_id == Option::Some(gv));
                    },
                    Option::None => {
                        assert(self.gate_index_has(g, k2) <==> mid_book.gate_index_has(g, k2));
                        assert(tv.gate_id == Option::<Seq<char>>::None);
                    },
                }
                if k2 != k && lm.contains_key(k2) {
                    assert(lm2[k2] == lm[k2]);
                }
            }
            assert forall|a: Seq<char>, k2: (Seq<char>, u64)| #![auto]
                self.creator_index_has(a, k2) <==> (lm2.contains_key(k2) && lm2[k2].creator_id
                    == Option::Some(a)) by {
                match opt_view(creator) {
                    Option::Some(cv) => {
                        assert(self.creator_index_has(a, k2) <==> (mid_book.creator_index_has(
                            a,
                            k2,
                        ) || (a == cv && k2 == k)));
                        assert(tv.creator_id == Option::Some(cv));
                    },
                    Option::None => {
                        assert(self.creator_index_has(a, k2) <==> mid_book.creator_index_has(
                            a,
                            k2,
                        ));
                        assert(tv.creator_id == Option::<Seq<char>>::None);
                    },
                }
                if k2 != k && lm.contains_key(k2) {
                    assert(lm2[k2] == lm[k2]);
                }
            }
            assert forall|k2: (Seq<char>, u64)| #![auto]
                lm2.contains_key(k2) implies key_of(lm2[k2]) == k2 by {
                if k2 != k {
                    assert(lm2[k2] == lm[k2]);
                }
            }
            assert(lm2 =~= old(self).listings().insert(k, tv));
        }
    }

    /// Returns all available tokens for sale.
    /// Use the `nft_on_approve` method to add a token for sale.
    pub fn get_tokens_for_sale(&self) -> (r: Vec<TokenForSale>)
        requires
            self.wf(),
        ensures
            unique_keys(r@),
            forall|i: int| #![auto]
                0 <= i < r@.len() ==> self.listings().contains_key(key_of(r@[i]@))
                    && self.listings()[key_of(r@[i]@)] == r@[i]@,
            forall|k: (Seq<char>, u64)| #![auto]
                self.listings().contains_key(k) ==> exists|i: int|
                    0 <= i < r@.len() && key_of(r@[i]@) == k,
    {
        let mut r: Vec<TokenForSale> = Vec::new();
        let mut i: usize = 0;
        while i < self.tokens_for_sale.len()
            invariant
                0 <= i <= self.tokens_for_sale.len(),
                r@.len() == i,
                forall|j: int| 0 <= j < i ==> r@[j]@ == self.tokens_for_sale@[j]@,
            decreases self.tokens_for_sale.len() - i,
        {
            r.push(self.tokens_for_sale[i].clone());
            i = i + 1;
        }
        proof {
            lemma_listing_map_dom(self.tokens_for_sale@);
            assert forall|j: int| #![auto]
                0 <= j < r@.len() implies self.listings().contains_key(key_of(r@[j]@))
                    && self.listings()[key_of(r@[j]@)] == r@[j]@ by {
                lemma_listing_map_val(self.tokens_for_sale@, j);
            }
            assert forall|k: (Seq<char>, u64)| #![auto]
                self.listings().contains_key(k) implies exists|j: int|
                    0 <= j < r@.len() && key_of(r@[j]@) == k by {
                assert(has_key(self.tokens_for_sale@, k));
                let j = choose|j: int|
                    0 <= j < self.tokens_for_sale@.len() && key_of(self.tokens_for_sale@[j]@)
                        == k;
                assert(key_of(r@[j]@) == k);
            }
        }
        r
    }

    /// Materializes the listings an index holds under `name`, joining
    /// the index with the primary map. Under `wf` each index entry is
    /// backed by a listing, so the join cannot fail; and since the
    /// index holds no duplicate pairs, no key is returned twice.
    fn collect_by(
        &self,
        idx: &Vec<(String, TokenKey)>,
        name: &String,
        Ghost(sel): Ghost<spec_fn(ListingV) -> Option<Seq<char>>>,
    ) -> (r: Vec<TokenForSale>)
        requires
            self.wf(),
            pairs_unique(idx@),
            forall|a: Seq<char>, k: (Seq<char>, u64)| #![auto]
                pairs_has(idx@, a, k) <==> (self.listings().contains_key(k) && sel(
                    self.listings()[k],
                ) == Option::Some(a)),
        ensures
            forall|i: int, j: int| 0 <= i < j < r@.len() ==> key_of(r@[i]@) != key_of(r@[j]@),
            forall|i: int| #![auto]
                0 <= i < r@.len() ==> self.listings().contains_key(key_of(r@[i]@))
                    && self.listings()[key_of(r@[i]@)] == r@[i]@ && sel(r@[i]@)
                    == Option::Some(name@),
            forall|k: (Seq<char>, u64)| #![auto]
                (self.listings().contains_key(k) && sel(self.listings()[k]) == Option::Some(
                    name@,
                )) ==> exists|i: int| 0 <= i < r@.len() && key_of(r@[i]@) == k,
    {
        let mut r: Vec<TokenForSale> = Vec::new();
        let mut i: usize = 0;
        // Each returned row remembers (in ghost state) which index
        // entry produced it; the positions grow strictly, so two rows
        // with one key would mean two identical pairs in the index.
        let ghost mut src: Seq<int> = Seq::empty();
        while i < idx.len()
            invariant
                0 <= i <= idx.len(),
                self.wf(),
                forall|a: Seq<char>, k: (Seq<char>, u64)| #![auto]
                    pairs_has(idx@, a, k) <==> (self.listings().contains_key(k) && sel(
                        self.listings()[k],
                    ) == Option::Some(a)),
                forall|j: int| #![auto]
                    0 <= j < r@.len() ==> self.listings().contains_key(key_of(r@[j]@))
                        && self.listings()[key_of(r@[j]@)] == r@[j]@ && sel(r@[j]@)
                        == Option::Some(name@),
                forall|x: int| #![auto]
                    0 <= x < i && idx@[x].0@ == name@ ==> exists|j: int|
                        0 <= j < r@.len() && key_of(r@[j]@) == idx@[x].1@,
                src.len() == r@.len(),
                forall|j: int| #![trigger src[j]]
                    0 <= j < src.len() ==> 0 <= src[j] < i && idx@[src[j]].0@ == name@
                        && idx@[src[j]].1@ == key_of(r@[j]@),
                forall|j1: int, j2: int| 0 <= j1 < j2 < src.len() ==> src[j1] < src[j2],
            decreases idx.len() - i,
        {
            if idx[i].0 == *name {
                let kk: &TokenKey = &idx[i].1;
                proof {
                    assert(idx@[i as int].0@ == name@ && idx@[i as int].1@ == kk@);
                    assert(pairs_has(idx@, name@, kk@));
                    lemma_listing_map_dom(self.tokens_for_sale@);
                    assert(has_key(self.tokens_for_sale@, kk@));
                }
                let j: usize = match find_listing_index(&self.tokens_for_sale, &kk.0, kk.1) {
                    Option::Some(j) => j,
                    Option::None => unreached(),
                };
                proof {
                    lemma_listing_map_val(self.tokens_for_sale@, j as int);
                }
                let ghost r_old = r@;
                r.push(self.tokens_for_sale[j].clone());
                proof {
                    src = src.push(i as int);
                    assert(forall|x: int| 0 <= x < r_old.len() ==> r@[x] == r_old[x]);
                    assert(key_of(r@[r@.len() - 1]@) == kk@);
                    assert forall|x: int| #![auto]
                        0 <= x < i + 1 && idx@[x].0@ == name@ implies exists|jj: int|
                            0 <= jj < r@.len() && key_of(r@[jj]@) == idx@[x].1@ by {
                        if x < i {
                            let jj = choose|jj: int|
                                0 <= jj < r_old.len() && key_of(r_old[jj]@) == idx@[x].1@;
                            assert(key_of(r@[jj]@) == idx@[x].1@);
                        } else {
                            assert(key_of(r@[r@.len() - 1]@) == idx@[x].1@);
                        }
                    }
                }
            }
            i = i + 1;
        }
        proof {
            assert forall|k: (Seq<char>, u64)| #![auto]
                (self.listings().contains_key(k) && sel(self.listings()[k]) == Option::Some(
                    name@,
                )) implies exists|j: int| 0 <= j < r@.len() && key_of(r@[j]@) == k by {
                assert(pairs_has(idx@, name@, k));
                let x = choose|x: int|
                    0 <= x < idx@.len() && idx@[x].0@ == name@ && idx@[x].1@ == k;
            }
            assert forall|j1: int, j2: int| 0 <= j1 < j2 < r@.len() implies key_of(r@[j1]@)
                != key_of(r@[j2]@) by {
                assert(src[j1] < src[j2]);
                assert(idx@[src[j1]].0@ == name@ && idx@[src[j2]].0@ == name@);
                if key_of(r@[j1]@) == key_of(r@[j2]@) {
                    assert(idx@[src[j1]].1@ == idx@[src[j2]].1@);
                    assert(false);
                }
            }
        }
        r
    }

    /// Returns all tokens for sale owned by `owner_id`.
    pub fn get_tokens_by_owner_id(&self, owner_id: &AccountId) -> (r: Vec<TokenForSale>)
        requires
            self.wf(),
        ensures
            forall|i: int, j: int| 0 <= i < j < r@.len() ==> key_of(r@[i]@) != key_of(r@[j]@),
            forall|i: int| #![auto]
                0 <= i < r@.len() ==> self.listings().contains_key(key_of(r@[i]@))
                    && self.listings()[key_of(r@[i]@)] == r@[i]@ && r@[i]@.owner_id
                    == owner_id@,
            forall|k: (Seq<char>, u64)| #![auto]
                (self.listings().contains_key(k) && self.listings()[k].owner_id == owner_id@)
                    ==> exists|i: int| 0 <= i < r@.len() && key_of(r@[i]@) == k,
    {
        let ghost sel = |l: ListingV| Option::Some(l.owner_id);
        proof {
            assert(pairs_unique(self.tokens_by_owner_id@));
            assert forall|a: Seq<char>, k: (Seq<char>, u64)| #![auto]
                pairs_has(self.tokens_by_owner_id@, a, k) <==> (self.listings().contains_key(k)
                    && sel(self.listings()[k]) == Option::Some(a)) by {
                assert(self.owner_index_has(a, k) <==> (self.listings().contains_key(k)
                    && self.listings()[k].owner_id == a));
            }
        }
        self.collect_by(&self.tokens_by_owner_id, owner_id, Ghost(sel))
    }

    /// Returns all tokens for sale whose collectible's gate id is `gate_id`.
    pub fn get_tokens_by_gate_id(&self, gate_id: &GateId) -> (r: Vec<TokenForSale>)
        requires
            self.wf(),
        ensures
            forall|i: int, j: int| 0 <= i < j < r@.len() ==> key_of(r@[i]@) != key_of(r@[j]@),
            forall|i: int| #![auto]
                0 <= i < r@.len() ==> self.listings().contains_key(key_of(r@[i]@))
                    && self.listings()[key_of(r@[i]@)] == r@[i]@ && r@[i]@.gate_id
                    == Option::Some(gate_id@),
            forall|k: (Seq<char>, u64)| #![auto]
                (self.listings().contains_key(k) && self.listings()[k].gate_id == Option::Some(
                    gate_id@,
                )) ==> exists|i: int| 0 <= i < r@.len() && key_of(r@[i]@) == k,
    {
        let ghost sel = |l: ListingV| l.gate_id;
        proof {
            assert(pairs_unique(self.tokens_by_gate_id@));
            assert forall|a: Seq<char>, k: (Seq<char>, u64)| #![auto]
                pairs_has(self.tokens_by_gate_id@, a, k) <==> (self.listings().contains_key(k)
                    && sel(self.listings()[k]) == Option::Some(a)) by {
                assert(self.gate_index_has(a, k) <==> (self.listings().contains_key(k)
                    && self.listings()[k].gate_id == Option::Some(a)));
            }
        }
        self.collect_by(&self.tokens_by_gate_id, gate_id, Ghost(sel))
    }

    /// Returns all tokens for sale whose collectible's creator id is
    /// `creator_id`.
    pub fn get_tokens_by_creator_id(&self, creator_id: &AccountId) -> (r: Vec<TokenForSale>)
        requires
            self.wf(),
        ensures
            forall|i: int, j: int| 0 <= i < j < r@.len() ==> key_of(r@[i]@) != key_of(r@[j]@),
            forall|i: int| #![auto]
                0 <= i < r@.len() ==> self.listings().contains_key(key_of(r@[i]@))
                    && self.listings()[key_of(r@[i]@)] == r@[i]@ && r@[i]@.creator_id
                    == Option::Some(creator_id@),
            forall|k: (Seq<char>, u64)| #![auto]
                (self.listings().contains_key(k) && self.listings()[k].creator_id
                    == Option::Some(creator_id@)) ==> exists|i: int|
                    0 <= i < r@.len() && key_of(r@[i]@) == k,
    {
        let ghost sel = |l: ListingV| l.creator_id;
        proof {
            assert(pairs_unique(self.tokens_by_creator_id@));
            assert forall|a: Seq<char>, k: (Seq<char>, u64)| #![auto]
                pairs_has(self.tokens_by_creator_id@, a, k) <==> (
                self.listings().contains_key(k) && sel(self.listings()[k]) == Option::Some(
                    a,
                )) by {
                assert(self.creator_index_has(a, k) <==> (self.listings().contains_key(k)
                    && self.listings()[k].creator_id == Option::Some(a)));
            }
        }
        self.collect_by(&self.tokens_by_creator_id, creator_id, Ghost(sel))
    }
}

/// The outbound royalty-aware transfer a successful buy schedules,
/// together with the reservation for its chained private callback.
/// The host performs the call; the values here are part of the
/// interface and pinned by `buy_token`'s contract.
#[derive(Debug)]
pub struct TransferPayoutCall {
    /// The NFT contract receiving `nft_transfer_payout`.
    pub nft_contract_id: AccountId,
    /// The buyer: the new owner of the token.
    pub receiver_id: AccountId,
    /// The token being transferred.
    pub token_id: TokenId,
    /// No approval handle is forwarded.
    pub approval_id: Option<u64>,
    /// No memo is forwarded.
    pub memo: Option<String>,
    /// The buyer's whole deposit, to be split per the returned payout.
    pub balance: u128,
    /// Value attached to the outbound call: none.
    pub attached_deposit: u128,
    /// Gas for the outbound call: a third of the prepaid gas.
    pub gas: u64,
    /// Gas reserved for the chained `make_payouts` callback.
    pub callback_gas: u64,
    /// Value attached to the callback: none.
    pub callback_deposit: u128,
}

/// The listing written by the approval-intake entry points.
pub open spec fn listing_of(
    nft_contract_id: Seq<char>,
    token_id: u64,
    owner_id: Seq<char>,
    msg: crate::tokens::MarketApproveMsgV,
    approval_id: u64,
) -> ListingV {
    ListingV {
        nft_contract_id,
        token_id,
        owner_id,
        approval_id,
        min_price: msg.min_price,
        gate_id: msg.gate_id,
        creator_id: msg.creator_id,
    }
}

/// The book after applying `nft_on_approve` semantics to each pair of
/// `tokens` in order, all with approval id zero.
pub open spec fn batch_insert(
    m: Map<(Seq<char>, u64), ListingV>,
    tokens: Seq<(u64, crate::tokens::MarketApproveMsgV)>,
    owner_id: Seq<char>,
    nft_contract_id: Seq<char>,
) -> Map<(Seq<char>, u64), ListingV>
    decreases tokens.len(),
{
    if tokens.len() == 0 {
        m
    } else {
        let t = tokens.last();
        batch_insert(m, tokens.drop_last(), owner_id, nft_contract_id).insert(
            (nft_contract_id, t.0),
            listing_of(nft_contract_id, t.0, owner_id, t.1, 0),
        )
    }
}

impl MarketContract {
    /// Writes the listing described by an accepted approval message
    /// into the book, overwriting any listing under the same key and
    /// keeping every index in lock-step: the intake primitive shared
    /// by `nft_on_approve` and `batch_on_approve`.
    pub fn add_token(
        &mut self,
        owner_id: &AccountId,
        nft_contract_id: &AccountId,
        token_id: TokenId,
        approve_msg: MarketApproveMsg,
        approval_id: u64,
    )
        requires
            old(self).wf(),
        ensures
            final(self).wf(),
            final(self).listings() =~= old(self).listings().insert(
                (nft_contract_id@, token_id),
                listing_of(nft_contract_id@, token_id, owner_id@, approve_msg@, approval_id),
            ),
    {
        let t = TokenForSale {
            nft_contract_id: nft_contract_id.clone(),
            token_id,
            owner_id: owner_id.clone(),
            approval_id,
            min_price: approve_msg.min_price,
            gate_id: approve_msg.gate_id,
            creator_id: approve_msg.creator_id,
        };
        proof {
            assert(t@ =~= listing_of(
                nft_contract_id@,
                token_id,
                owner_id@,
                approve_msg@,
                approval_id,
            ));
        }
        self.insert_listing(t);
    }

    /// Indicates that the caller wants to buy the token
    /// `nft_contract_id:token_id` with the attached `deposit`.
    ///
    /// On success the listing is removed from the book *before* the
    /// outbound transfer is scheduled — the commit point of the buy —
    /// and the returned call carries a third of the prepaid gas, the
    /// fixed callback reservation, and the whole deposit as balance.
    /// Each fault leaves the book unchanged.
    pub fn buy_token(
        &mut self,
        nft_contract_id: AccountId,
        token_id: TokenId,
        buyer_id: AccountId,
        deposit: u128,
        prepaid_gas: u64,
    ) -> (r: Result<TransferPayoutCall, Panics>)
        requires
            old(self).wf(),
        ensures
            final(self).wf(),
            ({
                let k = (nft_contract_id@, token_id);
                let lm = old(self).listings();
                &&& !lm.contains_key(k) ==> (r matches Err(Panics::TokenKeyNotFound {
                    token_key,
                }) && token_key@ == k) && *final(self) == *old(self)
                &&& lm.contains_key(k) && lm[k].owner_id == buyer_id@ ==> (r matches Err(
                    Panics::BuyOwnTokenNotAllowed,
                )) && *final(self) == *old(self)
                &&& lm.contains_key(k) && lm[k].owner_id != buyer_id@ && deposit
                    < lm[k].min_price ==> (r matches Err(Panics::NotEnoughDepositToBuyToken))
                    && *final(self) == *old(self)
                &&& lm.contains_key(k) && lm[k].owner_id != buyer_id@ && deposit
                    >= lm[k].min_price ==> (r matches Ok(call) && call.nft_contract_id@ == k.0
                    && call.receiver_id@ == buyer_id@ && call.token_id == token_id
                    && (call.approval_id matches Option::None) && (
                    call.memo matches Option::None) && call.balance == deposit
                    && call.attached_deposit == NO_DEPOSIT && call.gas == prepaid_gas / 3
                    && call.callback_gas == GAS_FOR_ROYALTIES && call.callback_deposit
                    == NO_DEPOSIT) && final(self).listings() =~= lm.remove(k)
            }),
    {
        let token_key = TokenKey(nft_contract_id, token_id);
        proof {
            lemma_listing_map_dom(self.tokens_for_sale@);
        }
        match find_listing_index(&self.tokens_for_sale, &token_key.0, token_key.1) {
            Option::None => Err(Panics::TokenKeyNotFound { token_key }),
            Option::Some(i) => {
                proof {
                    assert(key_of(self.tokens_for_sale@[i as int]@) == token_key@);
                    assert(has_key(self.tokens_for_sale@, token_key@));
                    lemma_listing_map_val(self.tokens_for_sale@, i as int);
                }
                if buyer_id == self.tokens_for_sale[i].owner_id {
                    return Err(Panics::BuyOwnTokenNotAllowed);
                }
                let min_price: u128 = self.tokens_for_sale[i].min_price;
                if deposit < min_price {
                    return Err(Panics::NotEnoughDepositToBuyToken);
                }
                self.remove_listing(&token_key);
                Ok(
                    TransferPayoutCall {
                        nft_contract_id: token_key.0,
                        receiver_id: buyer_id,
                        token_id,
                        approval_id: Option::None,
                        memo: Option::None,
                        balance: deposit,
                        attached_deposit: NO_DEPOSIT,
                        gas: prepaid_gas / 3,
                        callback_gas: GAS_FOR_ROYALTIES,
                        callback_deposit: NO_DEPOSIT,
                    },
                )
            },
        }
    }

    /// Callback invoked by an NFT contract to remove its `Token` from
    /// the marketplace. The caller's account is the nft contract id of
    /// the key. A runtime re-check that the stored listing records the
    /// caller as its nft contract is unnecessary: under `wf` that holds
    /// statically for every listing.
    pub fn nft_on_revoke(&mut self, token_id: TokenId, predecessor: AccountId) -> (r: Result<
        (),
        Panics,
    >)
        requires
            old(self).wf(),
        ensures
            final(self).wf(),
            ({
                let k = (predecessor@, token_id);
                &&& !old(self).listings().contains_key(k) ==> (r matches Err(
                    Panics::TokenKeyNotFound { token_key },
                ) && token_key@ == k) && *final(self) == *old(self)
                &&& old(self).listings().contains_key(k) ==> r is Ok && final(self).listings()
                    =~= old(self).listings().remove(k)
            }),
    {
        let token_key = TokenKey(predecessor, token_id);
        proof {
            lemma_listing_map_dom(self.tokens_for_sale@);
        }
        match find_listing_index(&self.tokens_for_sale, &token_key.0, token_key.1) {
            Option::None => Err(Panics::TokenKeyNotFound { token_key }),
            Option::Some(i) => {
                proof {
                    assert(key_of(self.tokens_for_sale@[i as int]@) == token_key@);
                    assert(has_key(self.tokens_for_sale@, token_key@));
                    // Defense-in-depth identity check: the listing
                    // under `(caller, id)` indeed records the caller.
                    // It follows from `wf`, so nothing is tested at
                    // run time.
                    assert(self.listings()[token_key@].nft_contract_id == predecessor@);
                }
                self.remove_listing(&token_key);
                Ok(())
            },
        }
    }

    /// Callback invoked by an NFT contract to put several `Token`s into
    /// the marketplace at once; batch mode carries no per-token
    /// approval handle, so every approval id is zero.
    pub fn batch_on_approve(
        &mut self,
        tokens: Vec<(TokenId, MarketApproveMsg)>,
        owner_id: AccountId,
        predecessor: AccountId,
    )
        requires
            old(self).wf(),
        ensures
            final(self).wf(),
            final(self).listings() =~= batch_insert(
                old(self).listings(),
                tokens@.map_values(|p: (TokenId, MarketApproveMsg)| (p.0, p.1@)),
                owner_id@,
                predecessor@,
            ),
    {
        let ghost tseq = tokens@.map_values(|p: (TokenId, MarketApproveMsg)| (p.0, p.1@));
        let mut i: usize = 0;
        while i < tokens.len()
            invariant
                0 <= i <= tokens.len(),
                self.wf(),
                tseq == tokens@.map_values(|p: (TokenId, MarketApproveMsg)| (p.0, p.1@)),
                self.listings() =~= batch_insert(
                    old(self).listings(),
                    tseq.subrange(0, i as int),
                    owner_id@,
                    predecessor@,
                ),
            decreases tokens.len() - i,
        {
            let token_id: TokenId = tokens[i].0;
            let msg: MarketApproveMsg = tokens[i].1.clone();
            self.add_token(&owner_id, &predecessor, token_id, msg, 0);
            proof {
                let pre = tseq.subrange(0, i as int);
                let ext = tseq.subrange(0, i as int + 1);
                assert(ext.drop_last() =~= pre);
                assert(ext.last() == tseq[i as int]);
                assert(tseq[i as int] == (tokens@[i as int].0, tokens@[i as int].1@));
            }
            i = i + 1;
        }
        proof {
            assert(tseq.subrange(0, tokens@.len() as int) =~= tseq);
        }
    }

    /// Callback invoked by an NFT contract to put a `Token` into the
    /// marketplace. The caller's account is adopted as the nft contract
    /// id of the listing's key; `msg` must be an approval message in
    /// the wire format, else the intake fails with the min-price fault
    /// and the book is untouched.
    pub fn nft_on_approve(
        &mut self,
        token_id: TokenId,
        owner_id: AccountId,
        approval_id: u64,
        msg: String,
        predecessor: AccountId,
    ) -> (r: Result<(), Panics>)
        requires
            old(self).wf(),
        ensures
            final(self).wf(),
            match spec_approve_msg(msg@) {
                Result::Ok(m) => r is Ok && final(self).listings() =~= old(
                    self,
                ).listings().insert(
                    (predecessor@, token_id),
                    listing_of(predecessor@, token_id, owner_id@, m, approval_id),
                ),
                Result::Err(e) => (r matches Err(Panics::MsgFormatMinPriceMissing { reason })
                    && reason@ == e) && *final(self) == *old(self),
            },
    {
        match parse_market_approve_msg(msg.as_str()) {
            Result::Ok(approve_msg) => {
                self.add_token(&owner_id, &predecessor, token_id, approve_msg, approval_id);
                Ok(())
            },
            Result::Err(reason) => Err(Panics::MsgFormatMinPriceMissing { reason }),
        }
    }

    /// The private payout-distribution callback: given the caller, the
    /// contract's own account and the outcome of the chained transfer
    /// promise, decides which value transfers to issue.
    ///
    /// Anyone other than the contract itself is rejected. A failed
    /// transfer retains the funds (the listing is already gone); a
    /// not-ready promise and an unreadable payout are peer-contract
    /// violations and distribute nothing.
    pub fn make_payouts(
        &self,
        predecessor: AccountId,
        current_account: AccountId,
        promise_result: PromiseOutcome,
    ) -> (r: PayoutOutcome)
        ensures
            predecessor@ != current_account@ ==> r is NotPrivate,
            predecessor@ == current_account@ ==> match promise_result {
                PromiseOutcome::NotReady => r is NotReady,
                PromiseOutcome::Failed => r is TransferFailed,
                PromiseOutcome::Successful(value) => match spec_payout(value@) {
                    Option::None => r is BadPayout,
                    Option::Some(ps) => (r matches PayoutOutcome::Transfers(ts) && ts@.len()
                        == ps.len() && forall|i: int|
                        0 <= i < ps.len() ==> ts@[i].receiver_id@ == ps[i].0 && ts@[i].amount
                            == ps[i].1),
                },
            },
    {
        if !(predecessor == current_account) {
            return PayoutOutcome::NotPrivate;
        }
        match promise_result {
            PromiseOutcome::NotReady => PayoutOutcome::NotReady,
            PromiseOutcome::Failed => PayoutOutcome::TransferFailed,
            PromiseOutcome::Successful(value) => {
                match parse_payout(value.as_str()) {
                    Option::None => PayoutOutcome::BadPayout,
                    Option::Some(pairs) => {
                        let mut transfers: Vec<TransferAction> = Vec::new();
                        let mut i: usize = 0;
                        while i < pairs.len()
                            invariant
                                0 <= i <= pairs@.len(),
                                transfers@.len() == i,
                                forall|x: int|
                                    0 <= x < i ==> transfers@[x].receiver_id@ == pairs@[x].0@
                                        && transfers@[x].amount == pairs@[x].1,
                            decreases pairs@.len() - i,
                        {
                            let receiver_id: AccountId = pairs[i].0.clone();
                            let amount: u128 = pairs[i].1;
                            transfers.push(TransferAction { receiver_id, amount });
                            i = i + 1;
                        }
                        PayoutOutcome::Transfers(transfers)
                    },
                }
            },
        }
    }
}

/// For every listing currently in the book, exactly those index sets
/// implied by its fields contain its key, and no others do: the by-nft
/// and by-owner indices hold exactly the listed keys under their
/// recorded owners, and the by-gate and by-creator indices hold
/// exactly the keys whose listings carry the matching optional field.
pub proof fn lemma_indices_exact(m: MarketContract)
    requires
        m.wf(),
    ensures
        forall|k: (Seq<char>, u64)| #![auto] m.nft_index_has(k) <==> m.listings().contains_key(k),
        forall|a: Seq<char>, k: (Seq<char>, u64)| #![auto]
            m.owner_index_has(a, k) <==> (m.listings().contains_key(k)
                && m.listings()[k].owner_id == a),
        forall|g: Seq<char>, k: (Seq<char>, u64)| #![auto]
            m.gate_index_has(g, k) <==> (m.listings().contains_key(k) && m.listings()[k].gate_id
                == Option::Some(g)),
        forall|a: Seq<char>, k: (Seq<char>, u64)| #![auto]
            m.creator_index_has(a, k) <==> (m.listings().contains_key(k)
                && m.listings()[k].creator_id == Option::Some(a)),
{
}

/// Every listing in the book records the key it is stored under: the
/// denormalized `nft_contract_id` and `token_id` fields can be trusted.
pub proof fn lemma_listings_consistent(m: MarketContract)
    requires
        m.wf(),
    ensures
        forall|k: (Seq<char>, u64)| #![auto]
            m.listings().contains_key(k) ==> key_of(m.listings()[k]) == k,
{
}

/// The resolution of the chained transfer promise, as the host reports
/// it to the callback.
#[derive(Debug)]
pub enum PromiseOutcome {
    /// The promise has not resolved; the host never invokes a callback
    /// in this state.
    NotReady,
    /// The outbound transfer failed.
    Failed,
    /// The outbound transfer succeeded and returned these bytes.
    Successful(String),
}

/// A value transfer the callback asks the host to perform.
#[derive(Debug)]
pub struct TransferAction {
    /// The royalty recipient.
    pub receiver_id: AccountId,
    /// The amount to transfer.
    pub amount: u128,
}

/// What the payout-distribution callback decides.
#[derive(Debug)]
pub enum PayoutOutcome {
    /// The payout was read; issue these transfers in order.
    Transfers(Vec<TransferAction>),
    /// The caller was not the contract itself: rejected.
    NotPrivate,
    /// The transfer promise failed; the deposit stays with the
    /// contract and nothing is distributed.
    TransferFailed,
    /// The promise was not ready: a host-protocol violation.
    NotReady,
    /// The payout did not parse: a peer-contract violation.
    BadPayout,
}

} // verus!
