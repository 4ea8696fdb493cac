//! What the operations on tokens and pools are for, said of the tokens alone.
use vstd::prelude::*;

use crate::json;
use crate::json::{JsonV, Number};
use crate::seqs;
use crate::text;
use crate::token::manager;
use crate::token::models;
use crate::token::models::{EffortType, TokenStatus, TokenV};
use crate::token::pool;
use crate::token::pool::PoolV;
use crate::token::scheduler;

verus! {

/// Some token of the pool has this text.
pub open spec fn holds(tokens: Seq<TokenV>, token: Seq<char>) -> bool {
    exists|i: int| 0 <= i < tokens.len() && (#[trigger] tokens[i]).token == token
}

/// The tokens of all pools, pool by pool.
pub open spec fn everything(pools: Seq<PoolV>) -> Seq<TokenV>
    decreases pools.len(),
{
    if pools.len() == 0 {
        Seq::empty()
    } else {
        everything(pools.drop_last()) + pools.last().tokens
    }
}

/// The texts of the tokens that `keep` keeps.
pub open spec fn kept_texts(tokens: Seq<TokenV>, keep: spec_fn(TokenV) -> bool) -> Seq<Seq<char>> {
    tokens.filter(keep).map_values(|t: TokenV| t.token)
}

proof fn lemma_kept_concat(a: Seq<TokenV>, b: Seq<TokenV>, keep: spec_fn(TokenV) -> bool)
    ensures
        kept_texts(a + b, keep) == kept_texts(a, keep) + kept_texts(b, keep),
{
    seqs::lemma_filter_concat(a, b, keep);
    assert(kept_texts(a + b, keep) =~= kept_texts(a, keep) + kept_texts(b, keep));
}

proof fn lemma_due_in(tokens: Seq<TokenV>, hours: i64, now: i64)
    ensures
        manager::due_in(tokens, hours, now) == kept_texts(tokens, asked_again(hours, now)),
    decreases tokens.len(),
{
    reveal(Seq::filter);
    let keep = asked_again(hours, now);
    if tokens.len() > 0 {
        lemma_due_in(tokens.drop_last(), hours, now);
        let f = tokens.drop_last().filter(keep);
        if keep(tokens.last()) {
            assert(tokens.filter(keep) =~= f.push(tokens.last()));
            assert(kept_texts(tokens, keep) =~= kept_texts(tokens.drop_last(), keep).push(
                tokens.last().token,
            ));
        }
    } else {
        assert(kept_texts(tokens, keep) =~= Seq::empty());
    }
}

/// Tokens that cool down and whose quota was never asked for, or was last
/// asked for at least so many hours of 3,600,000 milliseconds ago.
pub open spec fn asked_again(hours: i64, now: i64) -> spec_fn(TokenV) -> bool {
    |t: TokenV|
        t.status == TokenStatus::Cooling && (t.last_sync_at is None || t.last_sync_at->0 + hours
            * 3_600_000 <= now)
}

/// The quotas of all cooling tokens that are due are asked for, whatever pool
/// they are in, and of no others; each as often as it is there, in order.
pub proof fn law_every_due_token_is_asked_for(pools: Seq<PoolV>, hours: i64, now: i64)
    ensures
        manager::due_over(pools, hours, now) == everything(pools).filter(
            asked_again(hours, now),
        ).map_values(|t: TokenV| t.token),
        forall|k: int, i: int|
            0 <= k < pools.len() && 0 <= i < pools[k].tokens.len() && asked_again(hours, now)(
                #[trigger] pools[k].tokens[i],
            ) ==> manager::due_over(pools, hours, now).contains(pools[k].tokens[i].token),
        forall|s: Seq<char>| #[trigger]
            manager::due_over(pools, hours, now).contains(s) ==> exists|k: int, i: int|
                0 <= k < pools.len() && 0 <= i < pools[k].tokens.len() && (
                #[trigger] pools[k].tokens[i]).token == s && asked_again(hours, now)(
                    pools[k].tokens[i],
                ),
    decreases pools.len(),
{
    let keep = asked_again(hours, now);
    let due = manager::due_over(pools, hours, now);
    if pools.len() == 0 {
        reveal(Seq::filter);
        assert(kept_texts(everything(pools), keep) =~= Seq::empty());
    } else {
        let before = pools.drop_last();
        let last = pools.last().tokens;
        law_every_due_token_is_asked_for(before, hours, now);
        lemma_due_in(last, hours, now);
        lemma_kept_concat(everything(before), last, keep);
        let a = manager::due_over(before, hours, now);
        let b = manager::due_in(last, hours, now);
        assert(due == a + b);
        assert forall|k: int, i: int|
            0 <= k < pools.len() && 0 <= i < pools[k].tokens.len() && keep(
                #[trigger] pools[k].tokens[i],
            ) implies due.contains(pools[k].tokens[i].token) by {
            if k < before.len() {
                assert(before[k] == pools[k]);
                assert(keep(before[k].tokens[i]));
                let j = choose|j: int| 0 <= j < a.len() && a[j] == pools[k].tokens[i].token;
                assert(due[j] == a[j]);
            } else {
                let f = last.filter(keep);
                assert(last.contains(last[i]));
                seqs::lemma_filter(last, keep, last[i]);
                let j = choose|j: int| 0 <= j < f.len() && f[j] == last[i];
                assert(b[j] == last[i].token);
                assert(due[a.len() + j] == b[j]);
            }
        }
        assert forall|s: Seq<char>| #[trigger] due.contains(s) implies exists|k: int, i: int|
            0 <= k < pools.len() && 0 <= i < pools[k].tokens.len() && (
            #[trigger] pools[k].tokens[i]).token == s && keep(pools[k].tokens[i]) by {
            let j = choose|j: int| 0 <= j < due.len() && due[j] == s;
            if j < a.len() {
                assert(a[j] == s);
                assert(a.contains(s));
                let (k, i) = choose|k: int, i: int|
                    0 <= k < before.len() && 0 <= i < before[k].tokens.len() && (
                    #[trigger] before[k].tokens[i]).token == s && keep(before[k].tokens[i]);
                assert(pools[k].tokens[i] == before[k].tokens[i]);
            } else {
                let f = last.filter(keep);
                let v = f[j - a.len()];
                assert(v.token == s);
                assert(f.contains(v));
                seqs::lemma_filter(last, keep, v);
                let i = choose|i: int| 0 <= i < last.len() && last[i] == v;
                assert(pools[pools.len() - 1].tokens[i] == v);
            }
        }
    }
}

/// The place of a token: the first with its text.
pub proof fn law_places(tokens: Seq<TokenV>, token: Seq<char>, j: int)
    ensures
        match pool::index_of(tokens, token) {
            Some(i) => 0 <= i < tokens.len() && tokens[i].token == token && (0 <= j < i
                ==> tokens[j].token != token),
            None => 0 <= j < tokens.len() ==> tokens[j].token != token,
        },
        pool::index_of(tokens, token) is Some <==> holds(tokens, token),
{
    lemma_index(tokens, token, 0);
}

proof fn lemma_index(tokens: Seq<TokenV>, token: Seq<char>, k: int)
    requires
        0 <= k <= tokens.len(),
    ensures
        match pool::index_from(tokens, token, k) {
            Some(i) => k <= i < tokens.len() && tokens[i].token == token && forall|j: int|
                k <= j < i ==> (#[trigger] tokens[j]).token != token,
            None => forall|j: int| k <= j < tokens.len() ==> (#[trigger] tokens[j]).token != token,
        },
    decreases tokens.len() - k,
{
    if k < tokens.len() && tokens[k].token != token {
        lemma_index(tokens, token, k + 1);
    }
}

/// Removing a token takes every entry with its text out of the pool and
/// leaves all others, in order.
pub proof fn law_removing_keeps_the_others(tokens: Seq<TokenV>, token: Seq<char>)
    ensures
        pool::without(tokens, token) == tokens.filter(|t: TokenV| t.token != token),
        !holds(pool::without(tokens, token), token),
    decreases tokens.len(),
{
    reveal(Seq::filter);
    let keep = |t: TokenV| t.token != token;
    if tokens.len() > 0 {
        law_removing_keeps_the_others(tokens.drop_last(), token);
    } else {
        assert(tokens.filter(keep) =~= tokens);
    }
    let r = pool::without(tokens, token);
    assert forall|i: int| 0 <= i < r.len() implies (#[trigger] r[i]).token != token by {
        assert(r.contains(r[i]));
        seqs::lemma_filter(tokens, keep, r[i]);
    }
}

/// A token is in some pool exactly where it is found, in the first such pool;
/// what is found has its text.
pub proof fn law_tokens_are_found(pools: Seq<PoolV>, raw: Seq<char>)
    ensures
        manager::holder(pools, raw) is Some <==> exists|k: int|
            0 <= k < pools.len() && holds((#[trigger] pools[k]).tokens, raw),
        manager::holder(pools, raw) matches Some(k) ==> {
            &&& 0 <= k < pools.len()
            &&& pools[k].tokens.contains(manager::token_in(pools, raw))
            &&& manager::token_in(pools, raw).token == raw
            &&& forall|j: int| 0 <= j < k ==> !holds((#[trigger] pools[j]).tokens, raw)
        },
{
    lemma_holder(pools, raw, 0);
    match manager::holder(pools, raw) {
        Some(k) => {
            law_places(pools[k].tokens, raw, 0);
        },
        None => {},
    }
}

proof fn lemma_holder(pools: Seq<PoolV>, raw: Seq<char>, k: int)
    requires
        0 <= k <= pools.len(),
    ensures
        match manager::holder_from(pools, raw, k) {
            Some(i) => k <= i < pools.len() && holds(pools[i].tokens, raw) && forall|j: int|
                k <= j < i ==> !holds((#[trigger] pools[j]).tokens, raw),
            None => forall|j: int| k <= j < pools.len() ==> !holds((#[trigger] pools[j]).tokens, raw),
        },
    decreases pools.len() - k,
{
    if k < pools.len() {
        law_places(pools[k].tokens, raw, 0);
        if !holds(pools[k].tokens, raw) {
            lemma_holder(pools, raw, k + 1);
        }
    }
}

/// A change of one token is a change of that entry and of nothing else: all
/// pools keep their names and sizes, and every entry with another text stays.
pub proof fn law_one_token_is_changed(
    pools: Seq<PoolV>,
    raw: Seq<char>,
    t: TokenV,
    k: int,
    i: int,
)
    requires
        0 <= k < pools.len(),
        0 <= i < pools[k].tokens.len(),
    ensures
        ({
            let after = manager::with_token(pools, raw, t);
            &&& after.len() == pools.len()
            &&& after[k].name == pools[k].name
            &&& after[k].tokens.len() == pools[k].tokens.len()
            &&& pools[k].tokens[i].token != raw ==> after[k].tokens[i] == pools[k].tokens[i]
            &&& pools[k].tokens[i].token == raw ==> exists|n: int, m: int|
                0 <= n < after.len() && 0 <= m < after[n].tokens.len()
                    && #[trigger] after[n].tokens[m] == t && pools[n].tokens[m].token == raw
        }),
{
    law_tokens_are_found(pools, raw);
    if pools[k].tokens[i].token == raw {
        assert(holds(pools[k].tokens, raw));
        let n = manager::holder(pools, raw)->0;
        law_places(pools[n].tokens, raw, 0);
        let m = pool::index_of(pools[n].tokens, raw)->0;
        assert(manager::with_token(pools, raw, t)[n].tokens[m] == t);
    } else {
        match manager::holder(pools, raw) {
            Some(n) => {
                law_places(pools[n].tokens, raw, 0);
            },
            None => {},
        }
    }
}

/// A token that is added is in its pool afterwards, with the full quota where
/// it was not there; all other entries of all pools stay.
pub proof fn law_adding_keeps_the_others(
    pools: Seq<PoolV>,
    raw: Seq<char>,
    name: Seq<char>,
    now: i64,
    k: int,
)
    requires
        0 <= k < pools.len(),
    ensures
        ({
            let after = manager::added(pools, raw, name, now);
            &&& pools.len() <= after.len() <= pools.len() + 1
            &&& after[k].name == pools[k].name
            &&& pools[k].tokens.is_prefix_of(after[k].tokens)
            &&& pools[k].name != name || holds(pools[k].tokens, raw) ==> after[k] == pools[k]
            &&& manager::is_new(pools, raw, name) ==> exists|n: int|
                0 <= n < after.len() && (#[trigger] after[n]).name == name
                    && after[n].tokens.len() > 0 && ({
                    let t = after[n].tokens.last();
                    t.token == raw && t.quota == 80 && t.status == TokenStatus::Active
                        && t.created_at == now && t.use_count == 0 && t.fail_count == 0
                })
            &&& !manager::is_new(pools, raw, name) ==> after == pools
        }),
{
    manager::lemma_named_from(pools, name, 0);
    let after = manager::added(pools, raw, name, now);
    match manager::named(pools, name) {
        Some(n) => {
            law_places(pools[n].tokens, raw, 0);
            assert(after[n].name == name);
        },
        None => {
            assert(after[pools.len() as int].name == name);
        },
    }
}

/// A removed token is out of the pool that held it; no other entry of any
/// pool is touched.
pub proof fn law_removing_is_complete(pools: Seq<PoolV>, token: Seq<char>, k: int)
    requires
        0 <= k < pools.len(),
    ensures
        ({
            let after = manager::removed(pools, token);
            &&& after.len() == pools.len()
            &&& after[k].name == pools[k].name
            &&& after[k].tokens.filter(|t: TokenV| t.token != token) == pools[k].tokens.filter(
                |t: TokenV| t.token != token,
            )
            &&& manager::holder(pools, token) == Some(k) ==> !holds(after[k].tokens, token)
            &&& manager::holder(pools, token) != Some(k) ==> after[k] == pools[k]
        }),
{
    law_tokens_are_found(pools, token);
    let keep = |t: TokenV| t.token != token;
    match manager::holder(pools, token) {
        Some(n) => {
            if n == k {
                law_removing_keeps_the_others(pools[k].tokens, token);
                lemma_filter_twice(pools[k].tokens, keep);
            }
        },
        None => {},
    }
}

proof fn lemma_filter_twice(s: Seq<TokenV>, keep: spec_fn(TokenV) -> bool)
    ensures
        s.filter(keep).filter(keep) == s.filter(keep),
    decreases s.len(),
{
    reveal(Seq::filter);
    if s.len() > 0 {
        lemma_filter_twice(s.drop_last(), keep);
        if keep(s.last()) {
            seqs::lemma_filter_push(s.drop_last().filter(keep), s.last(), keep);
        }
    }
}

/// A reset makes every token of every pool active again, with the full quota
/// and without failures; its text and its use count stay.
pub proof fn law_reset_reaches_every_token(pools: Seq<PoolV>, k: int, i: int)
    requires
        0 <= k < pools.len(),
        0 <= i < pools[k].tokens.len(),
        forall|j: int| 0 <= j < i ==> (#[trigger] pools[k].tokens[j]).token
            != pools[k].tokens[i].token,
    ensures
        ({
            let after = manager::renewed_pools(pools);
            let t = after[k].tokens[i];
            &&& after.len() == pools.len() && after[k].name == pools[k].name
            &&& after[k].tokens.len() == pools[k].tokens.len()
            &&& t.status == TokenStatus::Active && t.quota == 80 && t.fail_count == 0
            &&& t.last_fail_reason is None
            &&& t.token == pools[k].tokens[i].token && t.use_count == pools[k].tokens[i].use_count
            &&& t.tags == pools[k].tokens[i].tags && t.note == pools[k].tokens[i].note
        }),
{
    law_places(pools[k].tokens, pools[k].tokens[i].token, 0);
    law_places(pools[k].tokens, pools[k].tokens[i].token, i);
    let f = pool::index_of(pools[k].tokens, pools[k].tokens[i].token)->0;
    assert(holds(pools[k].tokens, pools[k].tokens[i].token));
    assert(f == i);
}

/// A request takes 1 or 4 from the quota, or what is left of it, and adds as
/// much to the use count. A token without quota then cools down; one with
/// quota keeps its status, or recovers.
pub proof fn law_what_a_request_costs(t: TokenV, effort: EffortType, now: i64)
    requires
        t.quota >= 0,
        models::consumable(t, effort),
    ensures
        ({
            let cost: int = if effort == EffortType::Low {
                1
            } else {
                4
            };
            let after = models::consumed(t, effort, now);
            &&& t.quota >= cost ==> after.quota == t.quota - cost && after.use_count == t.use_count
                + cost
            &&& t.quota < cost ==> after.quota == 0 && after.use_count == t.use_count + t.quota
            &&& after.last_used_at == Some(now) && after.fail_count == 0
            &&& after.quota == 0 ==> after.status == TokenStatus::Cooling
            &&& after.quota > 0 && t.status == TokenStatus::Disabled ==> after.status
                == TokenStatus::Disabled
            &&& after.quota > 0 && t.status != TokenStatus::Disabled ==> after.status
                == TokenStatus::Active
            &&& after.token == t.token && after.tags == t.tags && after.note == t.note
            &&& after.created_at == t.created_at && after.last_sync_at == t.last_sync_at
        }),
{
}

/// A token may be handed out where it is active and has quota, and only there.
pub proof fn law_who_may_be_handed_out(t: TokenV)
    ensures
        models::available(t) <==> t.status == TokenStatus::Active && t.quota >= 1,
{
}

/// The token that is handed out is one that may be, and none that may be has more quota.
pub proof fn law_the_fullest_token_is_handed_out(tokens: Seq<TokenV>, k: int, j: int)
    requires
        pool::is_best(tokens, k),
        0 <= j < tokens.len(),
    ensures
        0 <= k < tokens.len() && tokens[k].status == TokenStatus::Active && tokens[k].quota > 0,
        tokens[j].status == TokenStatus::Active ==> tokens[j].quota <= tokens[k].quota,
{
    assert(models::available(tokens[j]) || tokens[j].quota <= 0 || tokens[j].status
        != TokenStatus::Active);
}

/// Where some token may be handed out, one is.
pub proof fn law_someone_is_handed_out(tokens: Seq<TokenV>, j: int)
    requires
        0 <= j < tokens.len(),
        tokens[j].status == TokenStatus::Active && tokens[j].quota > 0,
    ensures
        exists|k: int| pool::is_best(tokens, k),
    decreases tokens.len(),
{
    let before = tokens.drop_last();
    let last = tokens.len() - 1;
    if exists|i: int| 0 <= i < before.len() && models::available(#[trigger] before[i]) {
        let i = choose|i: int| 0 <= i < before.len() && models::available(#[trigger] before[i]);
        law_someone_is_handed_out(before, i);
        let k = choose|k: int| pool::is_best(before, k);
        let b = if models::available(tokens[last]) && tokens[last].quota > tokens[k].quota {
            last
        } else {
            k
        };
        assert forall|m: int|
            0 <= m < tokens.len() && models::available(#[trigger] tokens[m]) implies tokens[m].quota
            <= tokens[b].quota by {
            if m < before.len() {
                assert(models::available(before[m]));
            }
        }
        assert(pool::is_best(tokens, b));
    } else {
        if j < before.len() {
            assert(models::available(before[j]));
        }
        assert(j == last);
        assert forall|m: int|
            0 <= m < tokens.len() && models::available(#[trigger] tokens[m]) implies tokens[m].quota
            <= tokens[last].quota by {
            if m < before.len() {
                assert(models::available(before[m]));
            }
        }
        assert(pool::is_best(tokens, last));
    }
}

/// The tokens of a status are counted, and the quotas are added up.
pub proof fn law_statistics(tokens: Seq<TokenV>, status: TokenStatus, t: TokenV)
    ensures
        pool::count_status(tokens, status) == tokens.filter(
            |u: TokenV| u.status == status,
        ).len(),
        pool::quota_sum(tokens.push(t)) == pool::quota_sum(tokens) + t.quota,
        pool::quota_sum(Seq::empty()) == 0,
        tokens.len() <= usize::MAX ==> ({
            let s = pool::stats_of(tokens);
            &&& s.total == tokens.len()
            &&& s.active == tokens.filter(|u: TokenV| u.status == TokenStatus::Active).len()
            &&& s.disabled == tokens.filter(|u: TokenV| u.status == TokenStatus::Disabled).len()
            &&& s.expired == tokens.filter(|u: TokenV| u.status == TokenStatus::Expired).len()
            &&& s.cooling == tokens.filter(|u: TokenV| u.status == TokenStatus::Cooling).len()
            &&& i32::MIN <= pool::quota_sum(tokens) <= i32::MAX ==> s.total_quota
                == pool::quota_sum(tokens)
        }),
{
    lemma_count_status(tokens, status);
    lemma_count_status(tokens, TokenStatus::Active);
    lemma_count_status(tokens, TokenStatus::Disabled);
    lemma_count_status(tokens, TokenStatus::Expired);
    lemma_count_status(tokens, TokenStatus::Cooling);
    assert(tokens.push(t).drop_last() =~= tokens);
}

proof fn lemma_count_status(tokens: Seq<TokenV>, status: TokenStatus)
    ensures
        pool::count_status(tokens, status) == tokens.filter(
            |u: TokenV| u.status == status,
        ).len(),
        pool::count_status(tokens, status) <= tokens.len(),
    decreases tokens.len(),
{
    reveal(Seq::filter);
    if tokens.len() > 0 {
        lemma_count_status(tokens.drop_last(), status);
    }
}

/// An answer about the quota: what is told is taken over, nothing below zero.
/// A success follows from it: failures are forgotten, and the token is active
/// while it has quota and cools down otherwise. Without an answer the request
/// is paid for from what is known, or not at all.
pub proof fn law_what_a_sync_does(
    t: TokenV,
    remain: Option<i64>,
    effort: EffortType,
    consume_on_fail: bool,
    is_usage: bool,
    now: i64,
)
    requires
        remain matches Some(n) ==> -2147483648 <= n <= 2147483647,
        t.use_count < i32::MAX,
    ensures
        ({
            let after = manager::after_sync(t, remain, effort, consume_on_fail, is_usage, now);
            &&& remain matches Some(n) ==> {
                &&& after.quota == if n > 0 {
                    n
                } else {
                    0
                }
                &&& after.status == if n > 0 {
                    TokenStatus::Active
                } else {
                    TokenStatus::Cooling
                }
                &&& after.fail_count == 0 && after.last_fail_at is None
                &&& after.last_fail_reason is None
                &&& is_usage ==> after.use_count == t.use_count + 1 && after.last_used_at == Some(
                    now,
                )
                &&& !is_usage ==> after.use_count == t.use_count && after.last_used_at
                    == t.last_used_at
                &&& after.token == t.token && after.tags == t.tags
            }
            &&& remain is None && !consume_on_fail ==> after == t
            &&& remain is None && consume_on_fail ==> after == models::consumed(t, effort, now)
        }),
{
}

/// The answer to a question about a cooling token: with quota left it is
/// active again, without it goes on cooling down, and a token about which
/// nothing is answered has expired. Only a disabled token stays disabled.
pub proof fn law_what_a_refresh_does(t: TokenV, reply: Option<JsonV>, n: i64, now: i64)
    ensures
        ({
            let after = manager::after_refresh(t, reply, now);
            &&& reply is None ==> after.status == TokenStatus::Expired && after.quota == t.quota
                && after.last_sync_at == Some(now)
            &&& reply == Some(
                JsonV::Object(seq![("remainingTokens"@, JsonV::Number(Number::of_int(n)))]),
            ) && 0 < n <= 2147483647 ==> {
                &&& after.quota == n && after.last_sync_at == Some(now)
                &&& after.status == if t.status == TokenStatus::Disabled {
                    TokenStatus::Disabled
                } else {
                    TokenStatus::Active
                }
            }
            &&& reply == Some(
                JsonV::Object(seq![("remainingTokens"@, JsonV::Number(Number::of_int(n)))]),
            ) && -2147483648 <= n <= 0 ==> after.quota == 0 && after.status
                == TokenStatus::Cooling && after.last_sync_at == Some(now)
            &&& reply == Some(JsonV::Object(Seq::empty())) ==> after == t
            &&& after.token == t.token && after.use_count == t.use_count && after.fail_count
                == t.fail_count
        }),
{
    let f = seq![("remainingTokens"@, JsonV::Number(Number::of_int(n)))];
    reveal_with_fuel(json::position_from, 3);
    assert(json::lookup(f, "remainingTokens"@) == Some(f[0].1));
}

/// Answers about other tokens leave a token as it is; of several about one
/// token the last one counts from what the earlier ones left.
pub proof fn law_refreshing_reaches_the_named_tokens(
    pools: Seq<PoolV>,
    replies: Seq<(Seq<char>, Option<JsonV>)>,
    token: Seq<char>,
    now: i64,
)
    requires
        manager::holder(pools, token) is Some,
    ensures
        ({
            let after = manager::refreshed_all(pools, replies, now);
            &&& manager::holder(after, token) == manager::holder(pools, token)
            &&& (forall|i: int| 0 <= i < replies.len() ==> (#[trigger] replies[i]).0 != token)
                ==> manager::token_in(after, token) == manager::token_in(pools, token)
            &&& replies.len() > 0 && replies.last().0 == token ==> manager::token_in(after, token)
                == manager::after_refresh(
                manager::token_in(
                    manager::refreshed_all(pools, replies.drop_last(), now),
                    token,
                ),
                replies.last().1,
                now,
            )
        }),
    decreases replies.len(),
{
    if replies.len() > 0 {
        let before = replies.drop_last();
        law_refreshing_reaches_the_named_tokens(pools, before, token, now);
        let p = manager::refreshed_all(pools, before, now);
        let raw = replies.last().0;
        if manager::holder(p, raw) is Some {
            law_tokens_are_found(p, raw);
            let t = manager::after_refresh(manager::token_in(p, raw), replies.last().1, now);
            crate::token::laws::law_other_tokens_untouched(p, raw, t, token);
        }
        assert forall|i: int| 0 <= i < before.len() implies before[i] == replies[i] by {}
        if forall|i: int| 0 <= i < replies.len() ==> (#[trigger] replies[i]).0 != token {
            assert forall|i: int| 0 <= i < before.len() implies (#[trigger] before[i]).0
                != token by {
                assert(replies[i].0 != token);
            }
            assert(replies[replies.len() - 1].0 != token);
        }
    }
}

/// An answer about a known token is counted once, as recovered where the
/// token had no quota and now has some, and as expired where there was no answer.
pub proof fn law_what_is_tallied(
    tally: manager::RefreshTally,
    pools: Seq<PoolV>,
    token: Seq<char>,
    reply: Option<JsonV>,
    now: i64,
)
    requires
        manager::holder(pools, token) is Some,
        tally.checked < i32::MAX,
        tally.refreshed < i32::MAX,
        tally.recovered < i32::MAX,
        tally.expired < i32::MAX,
        manager::remaining_in(reply) matches Some(n) ==> -2147483648 <= n <= 2147483647,
    ensures
        ({
            let r = manager::tallied(tally, pools, token, reply);
            let before = manager::token_in(pools, token);
            let after = manager::after_refresh(before, reply, now);
            &&& r.checked == tally.checked + 1 && r.refreshed == tally.refreshed + 1
            &&& r.recovered == tally.recovered + if before.quota == 0 && after.quota > 0 {
                1int
            } else {
                0
            }
            &&& r.expired == tally.expired + if reply is None {
                1int
            } else {
                0
            }
        }),
{
}

/// A token is stored under these names.
pub proof fn law_how_a_token_is_stored(t: TokenV)
    ensures
        ({
            let j = manager::token_json(t);
            &&& j.field("token"@) == Some(JsonV::Str(t.token))
            &&& j.field("quota"@) == Some(JsonV::Number(Number::of_int(t.quota as i64)))
            &&& j.field("use_count"@) == Some(JsonV::Number(Number::of_int(t.use_count as i64)))
            &&& j.field("fail_count"@) == Some(JsonV::Number(Number::of_int(t.fail_count as i64)))
            &&& j.field("created_at"@) == Some(JsonV::Number(Number::of_int(t.created_at)))
            &&& j.field("status"@) == Some(
                JsonV::Str(
                    match t.status {
                        TokenStatus::Active => "active"@,
                        TokenStatus::Disabled => "disabled"@,
                        TokenStatus::Expired => "expired"@,
                        TokenStatus::Cooling => "cooling"@,
                    },
                ),
            )
        }),
{
    reveal_strlit("token");
    reveal_strlit("quota");
    reveal_strlit("use_count");
    reveal_strlit("fail_count");
    reveal_strlit("created_at");
    reveal_strlit("status");
    reveal_strlit("last_used_at");
    let f = manager::token_fields(t);
    lemma_names_differ();
    reveal_with_fuel(json::position_from, 8);
    assert(json::lookup(f, "token"@) == Some(f[0].1));
    assert(json::lookup(f, "status"@) == Some(f[1].1));
    assert(json::lookup(f, "quota"@) == Some(f[2].1));
    assert(json::lookup(f, "created_at"@) == Some(f[3].1));
    assert(json::lookup(f, "use_count"@) == Some(f[5].1));
    assert(json::lookup(f, "fail_count"@) == Some(f[6].1));
}

proof fn lemma_names_differ()
    ensures
        "token"@ != "status"@ && "token"@ != "quota"@ && "status"@ != "quota"@,
        "created_at"@ != "token"@ && "created_at"@ != "status"@ && "created_at"@ != "quota"@,
        "use_count"@ != "token"@ && "use_count"@ != "status"@ && "use_count"@ != "quota"@,
        "use_count"@ != "created_at"@ && "use_count"@ != "last_used_at"@,
        "fail_count"@ != "token"@ && "fail_count"@ != "status"@ && "fail_count"@ != "quota"@,
        "fail_count"@ != "created_at"@ && "fail_count"@ != "last_used_at"@ && "fail_count"@
            != "use_count"@,
{
    reveal_strlit("token");
    reveal_strlit("quota");
    reveal_strlit("use_count");
    reveal_strlit("fail_count");
    reveal_strlit("created_at");
    reveal_strlit("status");
    reveal_strlit("last_used_at");
    assert("token"@.len() == 5 && "status"@.len() == 6 && "quota"@.len() == 5);
    assert("token"@[0] == 't' && "quota"@[0] == 'q');
    assert("created_at"@.len() == 10 && "use_count"@.len() == 9 && "last_used_at"@.len() == 12);
    assert("fail_count"@.len() == 10 && "fail_count"@[0] == 'f' && "created_at"@[0] == 'c');
}

/// Every entry of a stored pool that names a token is read, in order; without
/// further particulars it is an active token with the full quota.
pub proof fn law_what_is_loaded(
    items: Seq<JsonV>,
    more: Seq<JsonV>,
    token: Seq<char>,
    now: i64,
    name: Seq<char>,
)
    requires
        token.len() > 0,
        forall|r: Seq<char>| token != "sso="@ + r,
    ensures
        manager::tokens_of(items + more, now) == manager::tokens_of(items, now)
            + manager::tokens_of(more, now),
        manager::tokens_of(
            seq![JsonV::Object(seq![("token"@, JsonV::Str(token))])],
            now,
        ) == seq![models::fresh_token(token, now)],
        manager::pools_of(JsonV::Object(seq![(name, JsonV::Array(items))]), now) == seq![
            PoolV { name, tokens: manager::tokens_of(items, now) },
        ],
    decreases more.len(),
{
    reveal_with_fuel(manager::tokens_of, 2);
    if more.len() > 0 {
        law_what_is_loaded(items, more.drop_last(), token, now, name);
        assert((items + more).drop_last() =~= items + more.drop_last());
        assert(manager::tokens_of(items + more, now) =~= manager::tokens_of(items, now)
            + manager::tokens_of(more, now));
    } else {
        assert(items + more =~= items);
        assert(manager::tokens_of(items, now) + manager::tokens_of(more, now)
            =~= manager::tokens_of(items, now));
    }
    let f = seq![("token"@, JsonV::Str(token))];
    let v = JsonV::Object(f);
    lemma_names_differ();
    lemma_one_field(f, "token"@, "status"@);
    lemma_one_field(f, "token"@, "quota"@);
    lemma_one_field(f, "token"@, "created_at"@);
    lemma_one_field(f, "token"@, "use_count"@);
    lemma_one_field(f, "token"@, "fail_count"@);
    lemma_more_names_differ();
    lemma_one_field(f, "token"@, "last_used_at"@);
    lemma_one_field(f, "token"@, "last_fail_at"@);
    lemma_one_field(f, "token"@, "last_fail_reason"@);
    lemma_one_field(f, "token"@, "last_sync_at"@);
    lemma_one_field(f, "token"@, "tags"@);
    lemma_one_field(f, "token"@, "note"@);
    lemma_one_field(f, "token"@, "last_asset_clear_at"@);
    reveal_strlit("sso=");
    assert(manager::bare_of(token) == token) by {
        if text::begins(token, "sso="@) {
            assert(token =~= "sso="@ + token.skip(4));
        }
    }
    let t = manager::token_of(v, now)->0;
    assert(t.tags =~= Seq::empty());
    assert(t.note =~= Seq::empty());
    assert(manager::token_of(v, now) == Some(models::fresh_token(token, now)));
    assert(seq![v].drop_last() =~= Seq::empty());
    assert(manager::tokens_of(seq![v], now) =~= seq![models::fresh_token(token, now)]);
    assert(manager::pools_of(JsonV::Object(seq![(name, JsonV::Array(items))]), now) =~= seq![
        PoolV { name, tokens: manager::tokens_of(items, now) },
    ]);
}

proof fn lemma_one_field(f: Seq<(Seq<char>, JsonV)>, key: Seq<char>, other: Seq<char>)
    requires
        f.len() == 1,
        f[0].0 == key,
    ensures
        json::lookup(f, key) == Some(f[0].1),
        other != key ==> json::lookup(f, other) is None,
{
    reveal_with_fuel(json::position_from, 3);
}

proof fn lemma_more_names_differ()
    ensures
        "token"@ != "last_used_at"@ && "token"@ != "last_fail_at"@ && "token"@
            != "last_fail_reason"@,
        "token"@ != "last_sync_at"@ && "token"@ != "tags"@ && "token"@ != "note"@ && "token"@
            != "last_asset_clear_at"@,
{
    reveal_strlit("token");
    reveal_strlit("last_used_at");
    reveal_strlit("last_fail_at");
    reveal_strlit("last_fail_reason");
    reveal_strlit("last_sync_at");
    reveal_strlit("tags");
    reveal_strlit("note");
    reveal_strlit("last_asset_clear_at");
    assert("token"@.len() == 5);
    assert("last_used_at"@.len() == 12);
    assert("last_fail_at"@.len() == 12);
    assert("last_fail_reason"@.len() == 16);
    assert("last_sync_at"@.len() == 12);
    assert("tags"@.len() == 4);
    assert("note"@.len() == 4);
    assert("last_asset_clear_at"@.len() == 19);
}

/// A token is known by what follows `sso=`, however often that is written.
pub proof fn law_tokens_go_by_their_bare_text(token: Seq<char>, rest: Seq<char>)
    ensures
        manager::bare_of("sso="@ + token) == manager::bare_of(token),
        manager::bare_of(token) != "sso="@ + rest,
        (forall|r: Seq<char>| token != #[trigger] ("sso="@ + r)) ==> manager::bare_of(token)
            == token,
{
    reveal_strlit("sso=");
    crate::text_laws::law_prefixes_are_taken_off(token, "sso="@, rest);
}

/// A tag is put on once.
pub proof fn law_tags(t: TokenV, tag: Seq<char>, other: Seq<char>)
    ensures
        manager::tagged(t, tag).tags.contains(tag),
        t.tags.contains(other) ==> manager::tagged(t, tag).tags.contains(other),
        manager::tagged(t, tag).tags.contains(other) ==> t.tags.contains(other) || other == tag,
        manager::tagged(manager::tagged(t, tag), tag) == manager::tagged(t, tag),
        manager::tagged(t, tag).quota == t.quota && manager::tagged(t, tag).status == t.status
            && manager::tagged(t, tag).token == t.token,
{
    let a = manager::tagged(t, tag).tags;
    if !t.tags.contains(tag) {
        assert(a[t.tags.len() as int] == tag);
        if t.tags.contains(other) {
            let i = choose|i: int| 0 <= i < t.tags.len() && t.tags[i] == other;
            assert(a[i] == other);
        }
        if a.contains(other) && other != tag {
            let i = choose|i: int| 0 <= i < a.len() && a[i] == other;
            assert(t.tags[i] == other);
        }
    }
}

/// The quotas are asked for every so many hours, and at least every hour apart.
pub proof fn law_refreshing_takes_whole_hours(hours: i64)
    ensures
        hours >= 1 ==> scheduler::hours_of(hours) == hours,
        hours < 1 ==> scheduler::hours_of(hours) == 1,
{
}

/// A pool is found by its name: the first that has it.
pub proof fn law_pools_are_found(pools: Seq<PoolV>, name: Seq<char>, j: int)
    ensures
        match manager::named(pools, name) {
            Some(k) => 0 <= k < pools.len() && pools[k].name == name && (0 <= j < k
                ==> pools[j].name != name),
            None => 0 <= j < pools.len() ==> pools[j].name != name,
        },
{
    lemma_named(pools, name, 0, j);
}

proof fn lemma_named(pools: Seq<PoolV>, name: Seq<char>, k: int, j: int)
    requires
        0 <= k <= pools.len(),
    ensures
        match manager::named_from(pools, name, k) {
            Some(h) => k <= h < pools.len() && pools[h].name == name && (k <= j < h
                ==> pools[j].name != name),
            None => k <= j < pools.len() ==> pools[j].name != name,
        },
    decreases pools.len() - k,
{
    if k < pools.len() && pools[k].name != name {
        lemma_named(pools, name, k + 1, j);
    }
}

/// What is handed out is the bare text of an active token with quota, and no
/// active token of the pool has more.
pub proof fn law_what_is_handed_out(tokens: Seq<TokenV>, s: Seq<char>, j: int)
    requires
        manager::handed_out(tokens, s),
        0 <= j < tokens.len(),
    ensures
        exists|i: int|
            0 <= i < tokens.len() && (#[trigger] tokens[i]).status == TokenStatus::Active
                && tokens[i].quota > 0 && s == manager::bare_of(tokens[i].token) && (
            tokens[j].status == TokenStatus::Active ==> tokens[j].quota <= tokens[i].quota),
{
    let i = choose|i: int| #[trigger]
        pool::is_best(tokens, i) && s == manager::bare_of(tokens[i].token);
    law_the_fullest_token_is_handed_out(tokens, i, j);
    assert(tokens[i].quota > 0);
}

} // verus!
