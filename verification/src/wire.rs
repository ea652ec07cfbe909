//! The marketplace's wire format: flat JSON objects whose members are
//! string-valued, as in `{"min_price":"1000","gate_id":"G1"}`.
//!
//! Approval messages and payouts cross the contract boundary in this
//! shape; 64/128-bit amounts travel as decimal strings inside it.
//! Insignificant JSON whitespace (space, tab, newline, carriage
//! return) is accepted around the braces and between tokens. Escape
//! sequences inside strings are not supported (member names and
//! values on this protocol never need them), and every member must be
//! a string pair. The spec functions here are the definition of the
//! format; the executable parsers are proved to compute them exactly.

use crate::text::{dec_value, is_u128_digits};
use crate::tokens::{MarketApproveMsg, MarketApproveMsgV};
use vstd::prelude::*;

verus! {

/// Whether `c` is insignificant JSON whitespace.
pub open spec fn is_ws(c: char) -> bool {
    c == ' ' || c == '\t' || c == '\n' || c == '\r'
}

/// The index of the first non-whitespace character at or after `j`,
/// or the end of the string.
pub open spec fn skip_ws(s: Seq<char>, j: int) -> int
    decreases s.len() - j,
{
    if 0 <= j < s.len() && is_ws(s[j]) {
        skip_ws(s, j + 1)
    } else {
        j
    }
}

/// One past the last non-whitespace character of `s`; zero if `s` is
/// whitespace throughout.
pub open spec fn end_trim(s: Seq<char>) -> int
    decreases s.len(),
{
    if s.len() == 0 {
        0
    } else if is_ws(s.last()) {
        end_trim(s.drop_last())
    } else {
        s.len() as int
    }
}

/// The index of the first `"` at or after `j`, unless a `\` (an
/// unsupported escape) comes first.
pub open spec fn find_quote(s: Seq<char>, j: int) -> Option<int>
    decreases s.len() - j,
{
    if j < 0 || j >= s.len() {
        Option::None
    } else if s[j] == '"' {
        Option::Some(j)
    } else if s[j] == '\\' {
        Option::None
    } else {
        find_quote(s, j + 1)
    }
}

/// A leading JSON string: its content and the number of characters it
/// occupies, quotes included.
pub open spec fn parse_string_front(s: Seq<char>) -> Option<(Seq<char>, int)> {
    if s.len() < 2 || s[0] != '"' {
        Option::None
    } else {
        match find_quote(s, 1) {
            Option::None => Option::None,
            Option::Some(q) => Option::Some((s.subrange(1, q), q + 1)),
        }
    }
}

/// A leading member `"name" : "value"`, whitespace allowed around the
/// colon: the pair and the characters it occupies.
pub open spec fn parse_member_front(s: Seq<char>) -> Option<((Seq<char>, Seq<char>), int)> {
    match parse_string_front(s) {
        Option::None => Option::None,
        Option::Some((k, n1)) => {
            let c = skip_ws(s, n1);
            if 0 <= c < s.len() && s[c] == ':' {
                let d = skip_ws(s, c + 1);
                if 0 <= d <= s.len() {
                    match parse_string_front(s.subrange(d, s.len() as int)) {
                        Option::None => Option::None,
                        Option::Some((v, n2)) => Option::Some(((k, v), d + n2)),
                    }
                } else {
                    Option::None
                }
            } else {
                Option::None
            }
        },
    }
}

/// A non-empty, comma-separated member list that spans the whole of
/// `s`, whitespace allowed around members and commas.
pub open spec fn parse_members_front(s: Seq<char>) -> Option<Seq<(Seq<char>, Seq<char>)>>
    decreases s.len(),
{
    let a = skip_ws(s, 0);
    if a < 0 || a >= s.len() {
        Option::None
    } else {
        let rest = s.subrange(a, s.len() as int);
        match parse_member_front(rest) {
            Option::None => Option::None,
            Option::Some((p, n)) => {
                let m = skip_ws(rest, n);
                if m == rest.len() {
                    Option::Some(seq![p])
                } else if 0 <= m && m < rest.len() && rest[m] == ',' {
                    match parse_members_front(rest.subrange(m + 1, rest.len() as int)) {
                        Option::None => Option::None,
                        Option::Some(ps) => Option::Some(seq![p] + ps),
                    }
                } else {
                    Option::None
                }
            },
        }
    }
}

/// The members of a flat string-valued JSON object, in order of
/// appearance, or nothing if `s` is not in the format. Whitespace may
/// surround the object and any token inside it.
pub open spec fn spec_parse_object(s: Seq<char>) -> Option<Seq<(Seq<char>, Seq<char>)>> {
    let a = skip_ws(s, 0);
    let e = end_trim(s);
    if !(0 <= a && a < e && e <= s.len()) {
        Option::None
    } else {
        let t = s.subrange(a, e);
        if t.len() < 2 || t[0] != '{' || t[t.len() - 1] != '}' {
            Option::None
        } else {
            let interior = t.subrange(1, t.len() - 1);
            if skip_ws(interior, 0) >= interior.len() {
                Option::Some(Seq::empty())
            } else {
                parse_members_front(interior)
            }
        }
    }
}

/// A found quote lies between the start of the search and the end of
/// the string, and is a quote.
proof fn lemma_find_quote_bounds(s: Seq<char>, j: int)
    ensures
        match find_quote(s, j) {
            Option::Some(q) => j <= q < s.len() && s[q] == '"',
            Option::None => true,
        },
    decreases s.len() - j,
{
    if j < 0 || j >= s.len() {
    } else if s[j] == '"' {
    } else if s[j] == '\\' {
    } else {
        lemma_find_quote_bounds(s, j + 1);
    }
}

/// A parsed leading string occupies between two characters and the
/// whole input.
proof fn lemma_parse_string_front_bounds(s: Seq<char>)
    ensures
        match parse_string_front(s) {
            Option::Some((c, n)) => 2 <= n <= s.len(),
            Option::None => true,
        },
{
    if s.len() >= 2 && s[0] == '"' {
        lemma_find_quote_bounds(s, 1);
    }
}

/// Skipping whitespace never moves backwards nor past the end.
proof fn lemma_skip_ws_bounds(s: Seq<char>, j: int)
    requires
        0 <= j <= s.len(),
    ensures
        j <= skip_ws(s, j) <= s.len(),
    decreases s.len() - j,
{
    if j < s.len() && is_ws(s[j]) {
        lemma_skip_ws_bounds(s, j + 1);
    }
}

/// A parsed leading member occupies between five characters and the
/// whole input.
proof fn lemma_parse_member_front_bounds(s: Seq<char>)
    ensures
        match parse_member_front(s) {
            Option::Some((p, n)) => 5 <= n <= s.len(),
            Option::None => true,
        },
{
    lemma_parse_string_front_bounds(s);
    match parse_string_front(s) {
        Option::None => {},
        Option::Some((k, n1)) => {
            lemma_skip_ws_bounds(s, n1);
            let c = skip_ws(s, n1);
            if 0 <= c < s.len() && s[c] == ':' {
                lemma_skip_ws_bounds(s, c + 1);
                let d = skip_ws(s, c + 1);
                lemma_parse_string_front_bounds(s.subrange(d, s.len() as int));
            }
        },
    }
}

/// Decides whether `c` is insignificant JSON whitespace.
fn is_ws_exec(c: char) -> (r: bool)
    ensures
        r == is_ws(c),
{
    c == ' ' || c == '\t' || c == '\n' || c == '\r'
}

/// Finds the first non-whitespace character at or after `start`.
fn skip_ws_exec(s: &str, start: usize) -> (r: usize)
    requires
        start <= s@.len(),
    ensures
        r as int == skip_ws(s@, start as int),
        start <= r <= s@.len(),
{
    let len: usize = s.unicode_len();
    let mut j: usize = start;
    while j < len
        invariant
            start <= j <= len,
            len == s@.len(),
            skip_ws(s@, start as int) == skip_ws(s@, j as int),
        decreases len - j,
    {
        if !is_ws_exec(s.get_char(j)) {
            return j;
        }
        j = j + 1;
    }
    j
}

/// Finds the end of `s` once trailing whitespace is dropped.
fn end_trim_exec(s: &str) -> (r: usize)
    ensures
        r as int == end_trim(s@),
        r <= s@.len(),
{
    let len: usize = s.unicode_len();
    proof {
        assert(s@.subrange(0, len as int) =~= s@);
    }
    let mut e: usize = len;
    while e > 0
        invariant
            0 <= e <= len,
            len == s@.len(),
            end_trim(s@) == end_trim(s@.subrange(0, e as int)),
        decreases e,
    {
        let ghost t = s@.subrange(0, e as int);
        proof {
            assert(t.last() == s@[e as int - 1]);
        }
        if !is_ws_exec(s.get_char(e - 1)) {
            proof {
                assert(end_trim(t) == e as int);
            }
            return e;
        }
        proof {
            assert(t.drop_last() =~= s@.subrange(0, e as int - 1));
        }
        e = e - 1;
    }
    proof {
        assert(s@.subrange(0, 0) =~= Seq::<char>::empty());
    }
    0
}

/// Finds the first quote at or after `start`, refusing escapes.
fn find_quote_exec(s: &str, start: usize) -> (r: Option<usize>)
    requires
        start <= s@.len(),
    ensures
        match r {
            Option::Some(q) => find_quote(s@, start as int) == Option::Some(q as int),
            Option::None => find_quote(s@, start as int) is None,
        },
{
    let len: usize = s.unicode_len();
    let mut j: usize = start;
    while j < len
        invariant
            start <= j <= len,
            len == s@.len(),
            find_quote(s@, start as int) == find_quote(s@, j as int),
        decreases len - j,
    {
        let c: char = s.get_char(j);
        if c == '"' {
            return Option::Some(j);
        }
        if c == '\\' {
            return Option::None;
        }
        j = j + 1;
    }
    Option::None
}

/// Reads a leading JSON string, returning its content and the number
/// of characters consumed.
fn parse_string_front_exec(s: &str) -> (r: Option<(String, usize)>)
    ensures
        match r {
            Option::Some(p) => parse_string_front(s@) == Option::Some((p.0@, p.1 as int)),
            Option::None => parse_string_front(s@) is None,
        },
{
    let len: usize = s.unicode_len();
    if len < 2 {
        return Option::None;
    }
    if s.get_char(0) != '"' {
        return Option::None;
    }
    match find_quote_exec(s, 1) {
        Option::None => Option::None,
        Option::Some(q) => {
            proof {
                lemma_find_quote_bounds(s@, 1);
            }
            let content: &str = s.substring_char(1, q);
            Option::Some((String::from_str(content), q + 1))
        },
    }
}

/// Reads a leading `"name" : "value"` member.
fn parse_member_front_exec(s: &str) -> (r: Option<((String, String), usize)>)
    ensures
        match r {
            Option::Some(p) => parse_member_front(s@) == Option::Some(
                (((p.0).0@, (p.0).1@), p.1 as int),
            ),
            Option::None => parse_member_front(s@) is None,
        },
{
    let len: usize = s.unicode_len();
    match parse_string_front_exec(s) {
        Option::None => Option::None,
        Option::Some((k, n1)) => {
            proof {
                lemma_parse_string_front_bounds(s@);
            }
            let c: usize = skip_ws_exec(s, n1);
            if c < len && s.get_char(c) == ':' {
                let d: usize = skip_ws_exec(s, c + 1);
                let tail: &str = s.substring_char(d, len);
                match parse_string_front_exec(tail) {
                    Option::None => Option::None,
                    Option::Some((v, n2)) => {
                        proof {
                            lemma_parse_string_front_bounds(tail@);
                        }
                        Option::Some(((k, v), d + n2))
                    },
                }
            } else {
                Option::None
            }
        },
    }
}

/// The members of `ps` as mathematical pairs.
pub open spec fn pairs_view(ps: Seq<(String, String)>) -> Seq<(Seq<char>, Seq<char>)> {
    ps.map_values(|p: (String, String)| (p.0@, p.1@))
}

/// Reads a whole comma-separated member list.
fn parse_members_front_exec(s: &str) -> (r: Option<Vec<(String, String)>>)
    ensures
        match r {
            Option::Some(v) => parse_members_front(s@) == Option::Some(pairs_view(v@)),
            Option::None => parse_members_front(s@) is None,
        },
    decreases s@.len(),
{
    let len: usize = s.unicode_len();
    let a: usize = skip_ws_exec(s, 0);
    if a >= len {
        return Option::None;
    }
    let rest: &str = s.substring_char(a, len);
    match parse_member_front_exec(rest) {
        Option::None => Option::None,
        Option::Some((p, n)) => {
            proof {
                lemma_parse_member_front_bounds(rest@);
            }
            let rlen: usize = rest.unicode_len();
            let m: usize = skip_ws_exec(rest, n);
            if m == rlen {
                let mut v: Vec<(String, String)> = Vec::new();
                v.push(p);
                proof {
                    assert(pairs_view(v@) =~= seq![(v@[0].0@, v@[0].1@)]);
                }
                Option::Some(v)
            } else if rest.get_char(m) == ',' {
                let next: &str = rest.substring_char(m + 1, rlen);
                match parse_members_front_exec(next) {
                    Option::None => Option::None,
                    Option::Some(mut ps) => {
                        let ghost tail_view = pairs_view(ps@);
                        ps.insert(0, p);
                        proof {
                            assert(pairs_view(ps@) =~= seq![(ps@[0].0@, ps@[0].1@)]
                                + tail_view);
                        }
                        Option::Some(ps)
                    },
                }
            } else {
                Option::None
            }
        },
    }
}

/// Reads a flat string-valued JSON object, returning its members in
/// order of appearance; the contract is exactly `spec_parse_object`.
pub fn parse_string_object(s: &str) -> (r: Option<Vec<(String, String)>>)
    ensures
        match r {
            Option::Some(v) => spec_parse_object(s@) == Option::Some(pairs_view(v@)),
            Option::None => spec_parse_object(s@) is None,
        },
{
    let len: usize = s.unicode_len();
    let a: usize = skip_ws_exec(s, 0);
    let e: usize = end_trim_exec(s);
    if a >= e {
        return Option::None;
    }
    let t: &str = s.substring_char(a, e);
    let tlen: usize = t.unicode_len();
    if tlen < 2 || t.get_char(0) != '{' || t.get_char(tlen - 1) != '}' {
        return Option::None;
    }
    let interior: &str = t.substring_char(1, tlen - 1);
    let ilen: usize = interior.unicode_len();
    let ii: usize = skip_ws_exec(interior, 0);
    if ii >= ilen {
        let v: Vec<(String, String)> = Vec::new();
        proof {
            assert(pairs_view(v@) =~= Seq::<(Seq<char>, Seq<char>)>::empty());
        }
        return Option::Some(v);
    }
    parse_members_front_exec(interior)
}

/// The value of the first member named `k`, if any.
pub open spec fn lookup_field(ps: Seq<(Seq<char>, Seq<char>)>, k: Seq<char>) -> Option<
    Seq<char>,
>
    decreases ps.len(),
{
    if ps.len() == 0 {
        Option::None
    } else if ps[0].0 == k {
        Option::Some(ps[0].1)
    } else {
        lookup_field(ps.drop_first(), k)
    }
}

/// Whether no two members share a name.
pub open spec fn fields_unique(ps: Seq<(Seq<char>, Seq<char>)>) -> bool {
    forall|i: int, j: int| 0 <= i < j < ps.len() ==> ps[i].0 != ps[j].0
}

/// Finds the value of the member named `k`, cloning it out.
fn lookup_field_exec(ps: &Vec<(String, String)>, k: &String) -> (r: Option<String>)
    ensures
        match r {
            Option::Some(v) => lookup_field(pairs_view(ps@), k@) == Option::Some(v@),
            Option::None => lookup_field(pairs_view(ps@), k@) is None,
        },
{
    let ghost pv = pairs_view(ps@);
    proof {
        assert(pv.subrange(0, pv.len() as int) =~= pv);
    }
    let mut i: usize = 0;
    while i < ps.len()
        invariant
            0 <= i <= ps@.len(),
            pv == pairs_view(ps@),
            lookup_field(pv, k@) == lookup_field(pv.subrange(i as int, pv.len() as int), k@),
        decreases ps@.len() - i,
    {
        proof {
            let suf = pv.subrange(i as int, pv.len() as int);
            assert(suf[0] == pv[i as int]);
            assert(suf.drop_first() =~= pv.subrange(i as int + 1, pv.len() as int));
        }
        if ps[i].0 == *k {
            return Option::Some(ps[i].1.clone());
        }
        i = i + 1;
    }
    proof {
        assert(pv.subrange(pv.len() as int, pv.len() as int) =~= Seq::<(
            Seq<char>,
            Seq<char>,
        )>::empty());
    }
    Option::None
}

/// The reason reported when the message is not a flat string-valued
/// JSON object.
pub open spec fn reason_malformed() -> Seq<char> {
    "msg must be a flat JSON object of string fields"@
}

/// The reason reported when two members of the message share a name.
pub open spec fn reason_duplicate() -> Seq<char> {
    "duplicate field in msg"@
}

/// The reason reported when the message has no `min_price` member.
pub open spec fn reason_missing() -> Seq<char> {
    "missing field `min_price`"@
}

/// The reason reported when `min_price` is not a decimal `u128`.
pub open spec fn reason_bad_min_price() -> Seq<char> {
    "min_price is not a u128 decimal string"@
}

/// What an approval message denotes: the `min_price` member read as a
/// decimal `u128`, with optional `gate_id` and `creator_id` members;
/// or the reason it is rejected. Unknown members are ignored.
pub open spec fn spec_approve_msg(s: Seq<char>) -> Result<MarketApproveMsgV, Seq<char>> {
    match spec_parse_object(s) {
        Option::None => Result::Err(reason_malformed()),
        Option::Some(ps) => {
            if !fields_unique(ps) {
                Result::Err(reason_duplicate())
            } else {
                match lookup_field(ps, "min_price"@) {
                    Option::None => Result::Err(reason_missing()),
                    Option::Some(mp) => {
                        if !is_u128_digits(mp) {
                            Result::Err(reason_bad_min_price())
                        } else {
                            Result::Ok(
                                MarketApproveMsgV {
                                    min_price: dec_value(mp) as u128,
                                    gate_id: lookup_field(ps, "gate_id"@),
                                    creator_id: lookup_field(ps, "creator_id"@),
                                },
                            )
                        }
                    },
                }
            }
        },
    }
}

/// Reads an approval message, returning the parsed message or the
/// reason it is rejected; the contract is exactly `spec_approve_msg`.
pub fn parse_market_approve_msg(s: &str) -> (r: Result<MarketApproveMsg, String>)
    ensures
        match r {
            Result::Ok(m) => spec_approve_msg(s@) == Result::<
                MarketApproveMsgV,
                Seq<char>,
            >::Ok(m@),
            Result::Err(e) => spec_approve_msg(s@) == Result::<
                MarketApproveMsgV,
                Seq<char>,
            >::Err(e@),
        },
{
    match parse_string_object(s) {
        Option::None => Result::Err(
            String::from_str("msg must be a flat JSON object of string fields"),
        ),
        Option::Some(ps) => {
            if !fields_unique_exec(&ps) {
                return Result::Err(String::from_str("duplicate field in msg"));
            }
            let min_price_name: String = String::from_str("min_price");
            match lookup_field_exec(&ps, &min_price_name) {
                Option::None => Result::Err(String::from_str("missing field `min_price`")),
                Option::Some(mp) => {
                    match crate::text::parse_u128(mp.as_str()) {
                        Option::None => Result::Err(
                            String::from_str("min_price is not a u128 decimal string"),
                        ),
                        Option::Some(min_price) => {
                            let gate_name: String = String::from_str("gate_id");
                            let creator_name: String = String::from_str("creator_id");
                            let gate_id: Option<String> = lookup_field_exec(&ps, &gate_name);
                            let creator_id: Option<String> = lookup_field_exec(
                                &ps,
                                &creator_name,
                            );
                            Result::Ok(MarketApproveMsg { min_price, gate_id, creator_id })
                        },
                    }
                },
            }
        },
    }
}

/// Whether every member value reads as a decimal `u128`.
pub open spec fn all_amounts(ps: Seq<(Seq<char>, Seq<char>)>) -> bool {
    forall|i: int| 0 <= i < ps.len() ==> is_u128_digits(ps[i].1)
}

/// What a payout denotes: each member name a recipient account, each
/// value a decimal `u128` amount; nothing if the object is malformed,
/// a name repeats, or an amount does not read.
pub open spec fn spec_payout(s: Seq<char>) -> Option<Seq<(Seq<char>, u128)>> {
    match spec_parse_object(s) {
        Option::None => Option::None,
        Option::Some(ps) => {
            if !fields_unique(ps) {
                Option::None
            } else if !all_amounts(ps) {
                Option::None
            } else {
                Option::Some(
                    ps.map_values(|p: (Seq<char>, Seq<char>)| (p.0, dec_value(p.1) as u128)),
                )
            }
        },
    }
}

/// Reads a payout object; the contract is exactly `spec_payout`.
pub fn parse_payout(s: &str) -> (r: Option<Vec<(String, u128)>>)
    ensures
        match r {
            Option::Some(v) => ({
                &&& spec_payout(s@) matches Option::Some(ps)
                &&& v@.len() == ps.len()
                &&& forall|i: int|
                    0 <= i < ps.len() ==> v@[i].0@ == ps[i].0 && v@[i].1 == ps[i].1
            }),
            Option::None => spec_payout(s@) is None,
        },
{
    match parse_string_object(s) {
        Option::None => Option::None,
        Option::Some(ps) => {
            if !fields_unique_exec(&ps) {
                return Option::None;
            }
            let ghost pv = pairs_view(ps@);
            let mut out: Vec<(String, u128)> = Vec::new();
            let mut i: usize = 0;
            while i < ps.len()
                invariant
                    0 <= i <= ps@.len(),
                    pv == pairs_view(ps@),
                    spec_parse_object(s@) == Option::Some(pv),
                    fields_unique(pv),
                    out@.len() == i,
                    forall|x: int| 0 <= x < i ==> is_u128_digits(pv[x].1),
                    forall|x: int|
                        0 <= x < i ==> out@[x].0@ == pv[x].0 && out@[x].1 as nat == dec_value(
                            pv[x].1,
                        ),
                decreases ps@.len() - i,
            {
                match crate::text::parse_u128(ps[i].1.as_str()) {
                    Option::None => {
                        proof {
                            assert(!is_u128_digits(pv[i as int].1));
                            assert(!all_amounts(pv));
                        }
                        return Option::None;
                    },
                    Option::Some(amount) => {
                        out.push((ps[i].0.clone(), amount));
                    },
                }
                i = i + 1;
            }
            proof {
                assert(all_amounts(pv));
                let mapped = pv.map_values(
                    |p: (Seq<char>, Seq<char>)| (p.0, dec_value(p.1) as u128),
                );
                assert(forall|x: int|
                    0 <= x < pv.len() ==> mapped[x] == (pv[x].0, dec_value(pv[x].1) as u128));
            }
            Option::Some(out)
        },
    }
}

/// Decides whether any two members share a name.
fn fields_unique_exec(ps: &Vec<(String, String)>) -> (r: bool)
    ensures
        r == fields_unique(pairs_view(ps@)),
{
    let ghost pv = pairs_view(ps@);
    let mut i: usize = 0;
    while i < ps.len()
        invariant
            0 <= i <= ps@.len(),
            pv == pairs_view(ps@),
            forall|x: int, y: int| 0 <= x < y < ps@.len() && x < i ==> pv[x].0 != pv[y].0,
        decreases ps@.len() - i,
    {
        let mut j: usize = i + 1;
        while j < ps.len()
            invariant
                i < j <= ps@.len(),
                i < ps@.len(),
                pv == pairs_view(ps@),
                forall|y: int| i < y < j ==> pv[i as int].0 != pv[y].0,
            decreases ps@.len() - j,
        {
            if ps[i].0 == ps[j].0 {
                proof {
                    assert(pv[i as int].0 == pv[j as int].0);
                }
                return false;
            }
            j = j + 1;
        }
        i = i + 1;
    }
    true
}

} // verus!
