//! What holds of the pools over several operations.
use vstd::prelude::*;

use crate::json;
use crate::json::JsonV;
use crate::text;
use crate::token::manager;
use crate::token::models;
use crate::token::models::{EffortType, TokenV};
use crate::token::pool;
use crate::token::pool::PoolV;

verus! {

/// Taking `sso=` off a second time changes nothing.
pub proof fn law_bare_is_bare(token: Seq<char>)
    ensures
        manager::bare_of(manager::bare_of(token)) == manager::bare_of(token),
    decreases token.len(),
{
    reveal_strlit("sso=");
    lemma_bare(token);
}

proof fn lemma_bare(token: Seq<char>)
    ensures
        !text::begins(manager::bare_of(token), "sso="@),
    decreases token.len(),
{
    reveal_strlit("sso=");
    if text::begins(token, "sso="@) {
        lemma_bare(token.skip("sso="@.len() as int));
    }
}

/// A token that storage gives back as it was: its text is neither empty nor
/// written with `sso=`.
pub open spec fn storable(t: TokenV) -> bool {
    t.token.len() > 0 && !text::begins(t.token, "sso="@)
}

/// The pools hold only tokens that storage gives back as they were.
pub open spec fn storable_pools(pools: Seq<PoolV>) -> bool {
    forall|k: int, i: int|
        0 <= k < pools.len() && 0 <= i < pools[k].tokens.len() ==> storable(
            #[trigger] pools[k].tokens[i],
        )
}

proof fn lemma_keys_distinct(t: TokenV)
    ensures
        json::distinct(manager::token_fields(t)),
{
    reveal_strlit("token");
    reveal_strlit("status");
    reveal_strlit("quota");
    reveal_strlit("created_at");
    reveal_strlit("last_used_at");
    reveal_strlit("use_count");
    reveal_strlit("fail_count");
    reveal_strlit("last_fail_at");
    reveal_strlit("last_fail_reason");
    reveal_strlit("last_sync_at");
    reveal_strlit("tags");
    reveal_strlit("note");
    reveal_strlit("last_asset_clear_at");
    let f = manager::token_fields(t);
    assert("token"@[0] == 't' && "quota"@[0] == 'q');
    assert("use_count"@[0] == 'u' && "fail_count"@[0] == 'f' && "use_count"@[1] == 's');
    assert("last_used_at"@[5] == 'u' && "last_fail_at"@[5] == 'f' && "last_sync_at"@[5] == 's');
    assert("tags"@[0] == 't' && "note"@[0] == 'n');
    assert forall|i: int, j: int| 0 <= i < j < f.len() implies (#[trigger] f[i]).0 != (
    #[trigger] f[j]).0 by {
        lemma_key_lengths();
    }
}

proof fn lemma_key_lengths()
    ensures
        "token"@.len() == 5,
        "status"@.len() == 6,
        "quota"@.len() == 5,
        "created_at"@.len() == 10,
        "last_used_at"@.len() == 12,
        "use_count"@.len() == 9,
        "fail_count"@.len() == 10,
        "last_fail_at"@.len() == 12,
        "last_fail_reason"@.len() == 16,
        "last_sync_at"@.len() == 12,
        "tags"@.len() == 4,
        "note"@.len() == 4,
        "last_asset_clear_at"@.len() == 19,
        "created_at"@[0] == 'c',
        "fail_count"@[0] == 'f',
{
    reveal_strlit("token");
    reveal_strlit("status");
    reveal_strlit("quota");
    reveal_strlit("created_at");
    reveal_strlit("last_used_at");
    reveal_strlit("use_count");
    reveal_strlit("fail_count");
    reveal_strlit("last_fail_at");
    reveal_strlit("last_fail_reason");
    reveal_strlit("last_sync_at");
    reveal_strlit("tags");
    reveal_strlit("note");
    reveal_strlit("last_asset_clear_at");
}

proof fn lemma_texts_of_models(v: Seq<Seq<char>>)
    ensures
        json::texts_among(manager::text_models(v)) == v,
    decreases v.len(),
{
    if v.len() > 0 {
        let m = manager::text_models(v);
        assert(m.drop_last() =~= manager::text_models(v.drop_last()));
        lemma_texts_of_models(v.drop_last());
        assert(v.drop_last().push(v.last()) =~= v);
    } else {
        assert(v =~= Seq::empty());
    }
}

/// A token reads back from storage as it was stored, whenever it is read.
pub proof fn law_token_survives_storage(t: TokenV, now: i64)
    requires
        storable(t),
    ensures
        manager::token_of(manager::token_json(t), now) == Some(t),
{
    let f = manager::token_fields(t);
    lemma_keys_distinct(t);
    assert forall|k: int| 0 <= k < f.len() implies manager::token_json(t).field(
        (#[trigger] f[k]).0,
    ) == Some(f[k].1) by {
        json::lemma_position_distinct(f, k);
    }
    assert(f[0].0 == "token"@ && f[1].0 == "status"@ && f[2].0 == "quota"@);
    assert(f[3].0 == "created_at"@ && f[4].0 == "last_used_at"@ && f[5].0 == "use_count"@);
    assert(f[6].0 == "fail_count"@ && f[7].0 == "last_fail_at"@);
    assert(f[8].0 == "last_fail_reason"@ && f[9].0 == "last_sync_at"@ && f[10].0 == "tags"@);
    assert(f[11].0 == "note"@ && f[12].0 == "last_asset_clear_at"@);
    lemma_texts_of_models(t.tags);
    reveal_strlit("active");
    reveal_strlit("disabled");
    reveal_strlit("expired");
    reveal_strlit("cooling");
    assert("expired"@[0] == 'e' && "cooling"@[0] == 'c');
    assert("active"@.len() == 6 && "disabled"@.len() == 8);
    assert("expired"@.len() == 7 && "cooling"@.len() == 7);
    assert(json::text_in(manager::token_json(t).field("status"@)) == Some(
        manager::status_name(t.status),
    ));
    reveal_strlit("sso=");
    let back = manager::token_of(manager::token_json(t), now)->0;
    assert(back.token == t.token);
    assert(back.status == t.status);
    assert(back.quota == t.quota);
    assert(back.use_count == t.use_count);
    assert(back.fail_count == t.fail_count);
}

proof fn lemma_tokens_survive(tokens: Seq<TokenV>, now: i64)
    requires
        forall|i: int| 0 <= i < tokens.len() ==> storable(#[trigger] tokens[i]),
    ensures
        manager::tokens_of(tokens.map_values(|t: TokenV| manager::token_json(t)), now) == tokens,
    decreases tokens.len(),
{
    let m = tokens.map_values(|t: TokenV| manager::token_json(t));
    if tokens.len() > 0 {
        let rest = tokens.drop_last();
        assert(m.drop_last() =~= rest.map_values(|t: TokenV| manager::token_json(t)));
        assert forall|i: int| 0 <= i < rest.len() implies storable(#[trigger] rest[i]) by {
            assert(rest[i] == tokens[i]);
        }
        lemma_tokens_survive(rest, now);
        assert(storable(tokens[tokens.len() - 1]));
        law_token_survives_storage(tokens.last(), now);
        assert(rest.push(tokens.last()) =~= tokens);
    } else {
        assert(tokens =~= Seq::empty());
    }
}

/// The pools read back from storage as they were saved, whenever they are read.
pub proof fn law_pools_survive_storage(pools: Seq<PoolV>, now: i64)
    requires
        storable_pools(pools),
    ensures
        manager::pools_of(manager::saved(pools), now) == pools,
{
    let back = manager::pools_of(manager::saved(pools), now);
    assert forall|k: int| 0 <= k < pools.len() implies #[trigger] back[k] == pools[k] by {
        assert forall|i: int| 0 <= i < pools[k].tokens.len() implies storable(
            #[trigger] pools[k].tokens[i],
        ) by {}
        lemma_tokens_survive(pools[k].tokens, now);
    }
    assert(back =~= pools);
}

/// A token that was put into a pool is found there; putting it there again
/// changes nothing.
pub proof fn law_added_is_known(pools: Seq<PoolV>, raw: Seq<char>, name: Seq<char>, now: i64, later: i64)
    ensures
        manager::holder(manager::added(pools, raw, name, now), raw) is Some,
        manager::added(manager::added(pools, raw, name, now), raw, name, later) == manager::added(
            pools,
            raw,
            name,
            now,
        ),
{
    let after = manager::added(pools, raw, name, now);
    let fresh = models::fresh_token(raw, now);
    manager::lemma_named_from(pools, name, 0);
    manager::lemma_named_from(after, name, 0);
    manager::lemma_holder_from(after, raw, 0);
    match manager::named(pools, name) {
        Some(k) => {
            lemma_named_kept(pools, after, name, 0);
            if pool::index_of(pools[k].tokens, raw) is None {
                let more = pools[k].tokens.push(fresh);
                pool::lemma_index_from(more, raw, 0);
                assert(more[pools[k].tokens.len() as int].token == raw);
                assert(after[k].tokens == more);
            }
            assert(pool::index_of(after[k].tokens, raw) is Some);
        },
        None => {
            let k = pools.len() as int;
            assert(after[k].tokens[0].token == raw);
            pool::lemma_index_from(after[k].tokens, raw, 0);
            assert(pool::index_of(after[k].tokens, raw) is Some);
            assert(after[k].name == name);
            let h = manager::named(after, name)->0;
            if h < pools.len() {
                assert(after[h] == pools[h]);
            }
            assert(h == k);
        },
    }
}

proof fn lemma_named_kept(a: Seq<PoolV>, b: Seq<PoolV>, name: Seq<char>, k: int)
    requires
        a.len() == b.len(),
        forall|j: int| 0 <= j < a.len() ==> (#[trigger] a[j]).name == b[j].name,
        0 <= k <= a.len(),
    ensures
        manager::named_from(a, name, k) == manager::named_from(b, name, k),
    decreases a.len() - k,
{
    if k < a.len() {
        assert(a[k].name == b[k].name);
        lemma_named_kept(a, b, name, k + 1);
    }
}

/// No operation gives two pools one name.
pub proof fn law_pool_names_stay_distinct(
    pools: Seq<PoolV>,
    raw: Seq<char>,
    name: Seq<char>,
    t: TokenV,
    now: i64,
)
    requires
        manager::distinct_names(pools),
    ensures
        manager::distinct_names(manager::added(pools, raw, name, now)),
        manager::distinct_names(manager::removed(pools, raw)),
        manager::distinct_names(manager::with_token(pools, raw, t)),
        manager::distinct_names(manager::renewed_pools(pools)),
{
    manager::lemma_named_from(pools, name, 0);
    manager::lemma_holder_from(pools, raw, 0);
    let r = manager::renewed_pools(pools);
    assert forall|i: int, j: int| 0 <= i < j < r.len() implies (#[trigger] r[i]).name != (
    #[trigger] r[j]).name by {
        assert(pools[i].name != pools[j].name);
    }
    let w = manager::with_token(pools, raw, t);
    assert forall|i: int, j: int| 0 <= i < j < w.len() implies (#[trigger] w[i]).name != (
    #[trigger] w[j]).name by {
        assert(pools[i].name != pools[j].name);
    }
    let x = manager::removed(pools, raw);
    assert forall|i: int, j: int| 0 <= i < j < x.len() implies (#[trigger] x[i]).name != (
    #[trigger] x[j]).name by {
        assert(pools[i].name != pools[j].name);
    }
    let a = manager::added(pools, raw, name, now);
    assert forall|i: int, j: int| 0 <= i < j < a.len() implies (#[trigger] a[i]).name != (
    #[trigger] a[j]).name by {
        if j < pools.len() {
            assert(pools[i].name != pools[j].name);
        } else {
            assert(a[i] == pools[i]);
        }
    }
}

/// Loading gives no two pools one name: an object has each field once.
pub proof fn law_loaded_names_are_distinct(data: JsonV, now: i64)
    requires
        json::names_once(data),
    ensures
        manager::distinct_names(manager::pools_of(data, now)),
{
    if let JsonV::Object(fields) = data {
        let p = manager::pools_of(data, now);
        assert forall|i: int, j: int| 0 <= i < j < p.len() implies (#[trigger] p[i]).name != (
        #[trigger] p[j]).name by {
            assert(p[i].name == fields[i].0);
            assert(p[j].name == fields[j].0);
        }
    }
}

/// Taking note of answers about quotas gives no two pools one name.
pub proof fn law_refreshed_names_stay_distinct(
    pools: Seq<PoolV>,
    replies: Seq<(Seq<char>, Option<JsonV>)>,
    now: i64,
)
    requires
        manager::distinct_names(pools),
    ensures
        manager::distinct_names(manager::refreshed_all(pools, replies, now)),
    decreases replies.len(),
{
    if replies.len() > 0 {
        law_refreshed_names_stay_distinct(pools, replies.drop_last(), now);
        let before = manager::refreshed_all(pools, replies.drop_last(), now);
        let token = replies.last().0;
        law_pool_names_stay_distinct(
            before,
            token,
            token,
            manager::after_refresh(manager::token_in(before, token), replies.last().1, now),
            now,
        );
    }
}

/// An operation on one token leaves every other token as it is, and the token
/// itself where it was.
pub proof fn law_other_tokens_untouched(
    pools: Seq<PoolV>,
    raw: Seq<char>,
    t: TokenV,
    other: Seq<char>,
)
    requires
        manager::holder(pools, raw) is Some,
        t.token == raw,
    ensures
        manager::holder(manager::with_token(pools, raw, t), other) == manager::holder(pools, other),
        manager::token_in(manager::with_token(pools, raw, t), raw) == t,
        other != raw && manager::holder(pools, other) is Some ==> manager::token_in(
            manager::with_token(pools, raw, t),
            other,
        ) == manager::token_in(pools, other),
{
    let after = manager::with_token(pools, raw, t);
    manager::lemma_holder_from(pools, raw, 0);
    manager::lemma_holder_from(pools, other, 0);
    let k = manager::holder(pools, raw)->0;
    let i = pool::index_of(pools[k].tokens, raw)->0;
    pool::lemma_index_from(pools[k].tokens, raw, 0);
    assert forall|p: int, text: Seq<char>| 0 <= p < pools.len() implies #[trigger] pool::index_of(
        after[p].tokens,
        text,
    ) == pool::index_of(pools[p].tokens, text) by {
        let a = after[p].tokens;
        let b = pools[p].tokens;
        assert forall|j: int| 0 <= j < a.len() implies (#[trigger] a[j]).token == b[j].token by {}
        pool::lemma_index_kept(a, b, text, 0);
    }
    lemma_holder_kept(pools, after, other, 0);
    lemma_holder_kept(pools, after, raw, 0);
    if other != raw && manager::holder(pools, other) is Some {
        let h = manager::holder(pools, other)->0;
        pool::lemma_index_from(pools[h].tokens, other, 0);
    }
}

proof fn lemma_holder_kept(a: Seq<PoolV>, b: Seq<PoolV>, raw: Seq<char>, k: int)
    requires
        a.len() == b.len(),
        forall|p: int|
            0 <= p < a.len() ==> pool::index_of((#[trigger] b[p]).tokens, raw) == pool::index_of(
                a[p].tokens,
                raw,
            ),
        0 <= k <= a.len(),
    ensures
        manager::holder_from(a, raw, k) == manager::holder_from(b, raw, k),
    decreases a.len() - k,
{
    if k < a.len() {
        assert(pool::index_of(b[k].tokens, raw) == pool::index_of(a[k].tokens, raw));
        lemma_holder_kept(a, b, raw, k + 1);
    }
}

/// A token that has run out of quota is not handed out until it is reset or
/// found to have quota again.
pub proof fn law_exhausted_is_not_handed_out(
    tokens: Seq<TokenV>,
    k: int,
    effort: EffortType,
    now: i64,
    quota: i32,
)
    requires
        0 <= k < tokens.len(),
        models::quota_left(tokens[k], effort) == 0,
    ensures
        !pool::is_best(tokens.update(k, models::consumed(tokens[k], effort, now)), k),
        models::available(models::renewed(models::consumed(tokens[k], effort, now))),
        quota > 0 ==> models::available(
            models::with_quota(models::consumed(tokens[k], effort, now), quota),
        ),
{
}

} // verus!
