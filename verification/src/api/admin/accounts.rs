//! Accounts as they are shown to an administrator.
use vstd::prelude::*;
use vstd::string::*;
use vstd::utf8::*;

use crate::json;
use crate::json::{Fields, Json, JsonV};
use crate::text;
use crate::token::manager;
use crate::token::manager::TokenManager;
use crate::token::models::{TokenInfo, TokenStatus, TokenV};
use crate::token::pool;
use crate::token::pool::PoolV;

verus! {

/// A token that is longer than `longest` bytes with all but its first eight
/// and its last `tail` bytes left out.
pub open spec fn masked(token: Seq<char>, longest: int, tail: int) -> Seq<char> {
    let b = encode_utf8(token);
    if b.len() > longest {
        decode_utf8(b.subrange(0, 8)) + "..."@ + decode_utf8(b.subrange(b.len() - tail, b.len() as int))
    } else {
        token
    }
}

/// The places at which a token is cut stand between characters.
pub open spec fn maskable(token: Seq<char>, longest: int, tail: int) -> bool {
    let b = encode_utf8(token);
    b.len() > longest ==> is_char_boundary(b, 8) && is_char_boundary(b, b.len() - tail)
}

/// Whether a token can be masked.
pub fn can_mask(token: &str, longest: usize, tail: usize) -> (r: bool)
    requires
        8 <= longest,
        tail <= longest,
    ensures
        r == maskable(token@, longest as int, tail as int),
{
    let n: usize = token.as_bytes().len();
    if n <= longest {
        return true;
    }
    token.is_char_boundary(8) && token.is_char_boundary(n - tail)
}

/// A token with its middle left out.
pub fn mask(token: &str, longest: usize, tail: usize) -> (r: String)
    requires
        8 <= longest,
        tail <= longest,
        maskable(token@, longest as int, tail as int),
    ensures
        r@ == masked(token@, longest as int, tail as int),
{
    let n: usize = token.as_bytes().len();
    if n <= longest {
        return String::from_str(token);
    }
    let (head, _) = token.split_at(8);
    let (_, end) = token.split_at(n - tail);
    proof {
        encode_utf8_decode_utf8(head@);
        encode_utf8_decode_utf8(end@);
        assert(encode_utf8(token@).subrange(0, 8) =~= encode_utf8(head@));
        assert(encode_utf8(token@).subrange(n - tail, n as int) =~= encode_utf8(end@));
    }
    text::joined3(head, "...", end)
}

/// Accounts longer than this many bytes are masked.
pub const ACCOUNT_LIMIT: usize = 24;

/// This many bytes at the end of an account are shown.
pub const ACCOUNT_TAIL: usize = 16;

/// An account as it is shown.
pub open spec fn account_json(pool_name: Seq<char>, t: TokenV) -> JsonV {
    JsonV::Object(
        seq![
            ("token"@, JsonV::Str(t.token)),
            (
                "token_masked"@,
                JsonV::Str(masked(t.token, ACCOUNT_LIMIT as int, ACCOUNT_TAIL as int)),
            ),
            ("pool"@, JsonV::Str(pool_name)),
            ("status"@, JsonV::Str(manager::status_name(t.status))),
            ("last_asset_clear_at"@, manager::opt_int_model(t.last_asset_clear_at)),
        ],
    )
}

/// The accounts of a pool.
pub open spec fn pool_accounts(p: PoolV) -> Seq<JsonV> {
    p.tokens.map_values(|t: TokenV| account_json(p.name, t))
}

/// The accounts of all pools, one after the other.
pub open spec fn all_accounts(pools: Seq<PoolV>) -> Seq<JsonV>
    decreases pools.len(),
{
    if pools.len() == 0 {
        Seq::empty()
    } else {
        all_accounts(pools.drop_last()) + pool_accounts(pools.last())
    }
}

/// The tokens of all pools, one after the other.
pub open spec fn all_tokens(pools: Seq<PoolV>) -> Seq<Seq<char>>
    decreases pools.len(),
{
    if pools.len() == 0 {
        Seq::empty()
    } else {
        all_tokens(pools.drop_last()) + pools.last().tokens.map_values(|t: TokenV| t.token)
    }
}

/// Every account can be masked.
pub open spec fn all_maskable(pools: Seq<PoolV>) -> bool {
    forall|k: int, i: int|
        0 <= k < pools.len() && 0 <= i < pools[k].tokens.len() ==> maskable(
            (#[trigger] pools[k].tokens[i]).token,
            ACCOUNT_LIMIT as int,
            ACCOUNT_TAIL as int,
        )
}

fn account_value(pool_name: &str, t: &TokenInfo) -> (r: Json)
    requires
        maskable(t@.token, ACCOUNT_LIMIT as int, ACCOUNT_TAIL as int),
    ensures
        r@ == account_json(pool_name@, t@),
{
    let status: &str = match t.status {
        TokenStatus::Active => "active",
        TokenStatus::Disabled => "disabled",
        TokenStatus::Expired => "expired",
        TokenStatus::Cooling => "cooling",
    };
    let shown = mask(t.token.as_str(), ACCOUNT_LIMIT, ACCOUNT_TAIL);
    let cleared = match t.last_asset_clear_at {
        Some(i) => json::int_value(i),
        None => Json::Null,
    };
    let mut f = Fields::new();
    f.add("token", json::text_value(t.token.as_str()));
    f.add("token_masked", json::text_value(shown.as_str()));
    f.add("pool", json::text_value(pool_name));
    f.add("status", json::text_value(status));
    f.add("last_asset_clear_at", cleared);
    proof {
        assert(f@ =~= account_json(pool_name@, t@)->Object_0);
    }
    f.object()
}

/// Whether every account can be masked.
pub fn can_list(mgr: &TokenManager) -> (r: bool)
    ensures
        r == all_maskable(mgr@),
{
    let n: usize = mgr.pools.len();
    let mut k: usize = 0;
    while k < n
        invariant
            n == mgr.pools@.len(),
            k <= n,
            forall|p: int, j: int|
                0 <= p < k && 0 <= j < mgr@[p].tokens.len() ==> maskable(
                    (#[trigger] mgr@[p].tokens[j]).token,
                    ACCOUNT_LIMIT as int,
                    ACCOUNT_TAIL as int,
                ),
        decreases n - k,
    {
        let tokens = &mgr.pools[k].tokens;
        let m: usize = tokens.len();
        let mut i: usize = 0;
        while i < m
            invariant
                n == mgr.pools@.len(),
                k < n,
                *tokens == mgr.pools@[k as int].tokens,
                m == tokens@.len(),
                i <= m,
                forall|p: int, j: int|
                    0 <= p < k && 0 <= j < mgr@[p].tokens.len() ==> maskable(
                        (#[trigger] mgr@[p].tokens[j]).token,
                        ACCOUNT_LIMIT as int,
                        ACCOUNT_TAIL as int,
                    ),
                forall|j: int|
                    0 <= j < i ==> maskable(
                        (#[trigger] mgr@[k as int].tokens[j]).token,
                        ACCOUNT_LIMIT as int,
                        ACCOUNT_TAIL as int,
                    ),
            decreases m - i,
        {
            proof {
                assert(mgr@[k as int] == mgr.pools@[k as int]@);
                assert(mgr@[k as int].tokens[i as int] == tokens@[i as int]@);
            }
            if !can_mask(tokens[i].token.as_str(), ACCOUNT_LIMIT, ACCOUNT_TAIL) {
                return false;
            }
            i += 1;
        }
        proof {
            assert(mgr@[k as int] == mgr.pools@[k as int]@);
        }
        k += 1;
    }
    true
}

/// The accounts of all pools.
pub fn list_accounts(mgr: &TokenManager) -> (r: Vec<Json>)
    requires
        all_maskable(mgr@),
    ensures
        json::models(r@) == all_accounts(mgr@),
{
    let mut out: Vec<Json> = Vec::new();
    let n: usize = mgr.pools.len();
    let mut k: usize = 0;
    proof {
        assert(mgr@.take(0) =~= Seq::empty());
        assert(json::models(out@) =~= Seq::empty());
    }
    while k < n
        invariant
            n == mgr.pools@.len(),
            k <= n,
            all_maskable(mgr@),
            json::models(out@) == all_accounts(mgr@.take(k as int)),
        decreases n - k,
    {
        let p = &mgr.pools[k];
        let ghost start = json::models(out@);
        let ghost want = pool_accounts(p@);
        let m: usize = p.tokens.len();
        let mut i: usize = 0;
        proof {
            assert(mgr@[k as int] == p@);
            assert(start + want.take(0) =~= start);
        }
        while i < m
            invariant
                n == mgr.pools@.len(),
                k < n,
                mgr@[k as int] == p@,
                m == p.tokens@.len(),
                i <= m,
                all_maskable(mgr@),
                want == pool_accounts(p@),
                json::models(out@) =~= start + want.take(i as int),
            decreases m - i,
        {
            proof {
                assert(mgr@[k as int].tokens[i as int] == p.tokens@[i as int]@);
            }
            let ghost held = out@;
            let item = account_value(p.name.as_str(), &p.tokens[i]);
            out.push(item);
            proof {
                assert(json::models(out@) =~= json::models(held).push(item@));
            }
            i += 1;
        }
        proof {
            assert(want.take(i as int) =~= want);
            assert(mgr@.take(k + 1).drop_last() =~= mgr@.take(k as int));
            assert(mgr@.take(k + 1).last() == p@);
        }
        k += 1;
    }
    proof {
        assert(mgr@.take(k as int) =~= mgr@);
    }
    out
}

/// The tokens of all pools.
pub fn list_tokens(mgr: &TokenManager) -> (r: Vec<String>)
    ensures
        text::texts(r@) == all_tokens(mgr@),
{
    let mut out: Vec<String> = Vec::new();
    let n: usize = mgr.pools.len();
    let mut k: usize = 0;
    proof {
        assert(mgr@.take(0) =~= Seq::empty());
        assert(text::texts(out@) =~= Seq::empty());
    }
    while k < n
        invariant
            n == mgr.pools@.len(),
            k <= n,
            text::texts(out@) == all_tokens(mgr@.take(k as int)),
        decreases n - k,
    {
        let p = &mgr.pools[k];
        let ghost start = text::texts(out@);
        let ghost want = p@.tokens.map_values(|t: TokenV| t.token);
        let m: usize = p.tokens.len();
        let mut i: usize = 0;
        proof {
            assert(mgr@[k as int] == p@);
            assert(start + want.take(0) =~= start);
        }
        while i < m
            invariant
                m == p.tokens@.len(),
                i <= m,
                want == p@.tokens.map_values(|t: TokenV| t.token),
                text::texts(out@) =~= start + want.take(i as int),
            decreases m - i,
        {
            let ghost held = out@;
            out.push(p.tokens[i].token.clone());
            proof {
                assert(text::texts(out@) =~= text::texts(held).push(p.tokens@[i as int].token@));
                assert(want[i as int] == p.tokens@[i as int].token@);
            }
            i += 1;
        }
        proof {
            assert(want.take(i as int) =~= want);
            assert(mgr@.take(k + 1).drop_last() =~= mgr@.take(k as int));
            assert(mgr@.take(k + 1).last() == p@);
        }
        k += 1;
    }
    proof {
        assert(mgr@.take(k as int) =~= mgr@);
    }
    out
}

} // verus!
