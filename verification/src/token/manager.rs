//! The pools of tokens: which token is used, and what becomes of it.
use vstd::prelude::*;
use vstd::string::*;

use crate::json;
use crate::json::{Fields, Json, JsonV, Number};
use crate::outside;
use crate::text;
use crate::token::laws;
use crate::token::models;
use crate::token::models::{EffortType, TokenInfo, TokenPoolStats, TokenStatus, TokenV, DEFAULT_QUOTA};
use crate::token::pool;
use crate::token::pool::{PoolV, TokenPool};

verus! {

/// The values of a list of pools.
pub open spec fn pool_views(v: Seq<TokenPool>) -> Seq<PoolV> {
    v.map_values(|p: TokenPool| p@)
}

/// A token without the `sso=` that it may be written with.
pub open spec fn bare_of(token: Seq<char>) -> Seq<char> {
    text::without_prefixes(token, "sso="@)
}

/// A token without the `sso=` that it may be written with.
pub fn bare(token: &str) -> (r: String)
    ensures
        r@ == bare_of(token@),
{
    proof {
        reveal_strlit("sso=");
    }
    text::trim_start_matches(token, "sso=")
}

/// The first pool that holds a token with the text `raw`, from `k` on.
pub open spec fn holder_from(pools: Seq<PoolV>, raw: Seq<char>, k: int) -> Option<int>
    decreases pools.len() - k,
{
    if k < 0 || k >= pools.len() {
        None
    } else if pool::index_of(pools[k].tokens, raw) is Some {
        Some(k)
    } else {
        holder_from(pools, raw, k + 1)
    }
}

/// The first pool that holds a token with the text `raw`.
pub open spec fn holder(pools: Seq<PoolV>, raw: Seq<char>) -> Option<int> {
    holder_from(pools, raw, 0)
}

/// What the first pool that holds a token is.
pub proof fn lemma_holder_from(pools: Seq<PoolV>, raw: Seq<char>, k: int)
    requires
        0 <= k <= pools.len(),
    ensures
        match holder_from(pools, raw, k) {
            Some(h) => k <= h < pools.len() && pool::index_of(pools[h].tokens, raw) is Some
                && forall|j: int|
                k <= j < h ==> pool::index_of((#[trigger] pools[j]).tokens, raw) is None,
            None => forall|j: int|
                k <= j < pools.len() ==> pool::index_of((#[trigger] pools[j]).tokens, raw) is None,
        },
    decreases pools.len() - k,
{
    if k < pools.len() && pool::index_of(pools[k].tokens, raw) is None {
        lemma_holder_from(pools, raw, k + 1);
    }
}

/// The token with the text `raw` that is found first.
pub open spec fn token_in(pools: Seq<PoolV>, raw: Seq<char>) -> TokenV {
    let p = pools[holder(pools, raw)->0];
    p.tokens[pool::index_of(p.tokens, raw)->0]
}

/// The pools with the token that is found first under `raw` replaced by `t`.
pub open spec fn with_token(pools: Seq<PoolV>, raw: Seq<char>, t: TokenV) -> Seq<PoolV> {
    match holder(pools, raw) {
        Some(k) => pools.update(
            k,
            PoolV {
                name: pools[k].name,
                tokens: pools[k].tokens.update(pool::index_of(pools[k].tokens, raw)->0, t),
            },
        ),
        None => pools,
    }
}

/// The pool named `name`, from `k` on.
pub open spec fn named_from(pools: Seq<PoolV>, name: Seq<char>, k: int) -> Option<int>
    decreases pools.len() - k,
{
    if k < 0 || k >= pools.len() {
        None
    } else if pools[k].name == name {
        Some(k)
    } else {
        named_from(pools, name, k + 1)
    }
}

/// The pool named `name`.
pub open spec fn named(pools: Seq<PoolV>, name: Seq<char>) -> Option<int> {
    named_from(pools, name, 0)
}

/// What the pool with a name is.
pub proof fn lemma_named_from(pools: Seq<PoolV>, name: Seq<char>, k: int)
    requires
        0 <= k <= pools.len(),
    ensures
        match named_from(pools, name, k) {
            Some(h) => k <= h < pools.len() && pools[h].name == name,
            None => forall|j: int| k <= j < pools.len() ==> (#[trigger] pools[j]).name != name,
        },
    decreases pools.len() - k,
{
    if k < pools.len() && pools[k].name != name {
        lemma_named_from(pools, name, k + 1);
    }
}

/// No two pools have one name.
pub open spec fn distinct_names(pools: Seq<PoolV>) -> bool {
    forall|i: int, j: int|
        0 <= i < j < pools.len() ==> (#[trigger] pools[i]).name != (#[trigger] pools[j]).name
}

/// `s` is the bare text of one of the tokens to hand out.
pub open spec fn handed_out(tokens: Seq<TokenV>, s: Seq<char>) -> bool {
    exists|i: int| #[trigger] pool::is_best(tokens, i) && s == bare_of(tokens[i].token)
}

/// The pools after a token `raw` was put into the pool `name` at `now`. A
/// pool that does not exist is made; a token that is there already stays as it is.
pub open spec fn added(pools: Seq<PoolV>, raw: Seq<char>, name: Seq<char>, now: i64) -> Seq<PoolV> {
    let fresh = models::fresh_token(raw, now);
    match named(pools, name) {
        Some(k) => if pool::index_of(pools[k].tokens, raw) is Some {
            pools
        } else {
            pools.update(k, PoolV { name, tokens: pools[k].tokens.push(fresh) })
        },
        None => pools.push(PoolV { name, tokens: seq![fresh] }),
    }
}

/// Whether putting a token into a pool changes anything.
pub open spec fn is_new(pools: Seq<PoolV>, raw: Seq<char>, name: Seq<char>) -> bool {
    match named(pools, name) {
        Some(k) => pool::index_of(pools[k].tokens, raw) is None,
        None => true,
    }
}

/// The pools after every token with the text `token` was taken out of the
/// first pool that has one.
pub open spec fn removed(pools: Seq<PoolV>, token: Seq<char>) -> Seq<PoolV> {
    match holder(pools, token) {
        Some(k) => pools.update(
            k,
            PoolV { name: pools[k].name, tokens: pool::without(pools[k].tokens, token) },
        ),
        None => pools,
    }
}

/// A pool with its tokens as good as new. Of tokens with one text the first is meant.
pub open spec fn renewed_tokens(tokens: Seq<TokenV>) -> Seq<TokenV> {
    Seq::new(
        tokens.len(),
        |i: int|
            if pool::index_of(tokens, tokens[i].token) == Some(i) {
                models::renewed(tokens[i])
            } else {
                tokens[i]
            },
    )
}

/// All pools with their tokens as good as new.
pub open spec fn renewed_pools(pools: Seq<PoolV>) -> Seq<PoolV> {
    pools.map_values(|p: PoolV| PoolV { name: p.name, tokens: renewed_tokens(p.tokens) })
}

/// The quota that a usage reply tells.
pub open spec fn remaining_in(reply: Option<JsonV>) -> Option<i64> {
    json::int_in(json::field_in(reply, "remainingTokens"@))
}

/// The value of an optional reply.
pub open spec fn reply_model(reply: Option<Json>) -> Option<JsonV> {
    match reply {
        Some(j) => Some(j@),
        None => None,
    }
}

fn remaining(reply: &Option<Json>) -> (r: Option<i64>)
    ensures
        r == remaining_in(reply_model(*reply)),
{
    match reply {
        Some(j) => j.get_i64("remainingTokens"),
        None => None,
    }
}

/// `t` after its quota was found to be `remain` at `now`.
pub open spec fn synced(t: TokenV, remain: i64, is_usage: bool, now: i64) -> TokenV {
    models::succeeded(models::with_quota(t, remain as i32), is_usage, now)
}

/// What a usage reply makes of a token: its quota where the reply tells it,
/// and otherwise the cost of the request where that is asked for.
pub open spec fn after_sync(
    t: TokenV,
    remain: Option<i64>,
    effort: EffortType,
    consume_on_fail: bool,
    is_usage: bool,
    now: i64,
) -> TokenV {
    match remain {
        Some(n) => synced(t, n, is_usage, now),
        None => if consume_on_fail {
            models::consumed(t, effort, now)
        } else {
            t
        },
    }
}

/// The counters can take what a usage reply adds to them.
pub open spec fn sync_in_range(
    t: TokenV,
    remain: Option<i64>,
    effort: EffortType,
    consume_on_fail: bool,
    is_usage: bool,
) -> bool {
    match remain {
        Some(_) => is_usage ==> t.use_count < i32::MAX,
        None => consume_on_fail ==> models::consumable(t, effort),
    }
}

/// What was done to the tokens whose quota was asked for.
#[derive(Clone, Copy, Debug, PartialEq, Eq, Structural)]
pub struct RefreshTally {
    pub checked: i32,
    pub refreshed: i32,
    pub recovered: i32,
    pub expired: i32,
}

impl RefreshTally {
    /// Nothing was done yet.
    pub fn new() -> (r: RefreshTally)
        ensures
            r == (RefreshTally { checked: 0, refreshed: 0, recovered: 0, expired: 0 }),
    {
        RefreshTally { checked: 0, refreshed: 0, recovered: 0, expired: 0 }
    }
}

/// What the answer about its quota makes of a cooling token: the quota that
/// it tells, or nothing where it tells none; without an answer it has expired.
pub open spec fn after_refresh(t: TokenV, reply: Option<JsonV>, now: i64) -> TokenV {
    match reply {
        Some(_) => match remaining_in(reply) {
            Some(n) => TokenV { last_sync_at: Some(now), ..models::with_quota(t, n as i32) },
            None => t,
        },
        None => TokenV { status: TokenStatus::Expired, last_sync_at: Some(now), ..t },
    }
}

/// The tally after one more answer.
pub open spec fn tallied(
    tally: RefreshTally,
    pools: Seq<PoolV>,
    token: Seq<char>,
    reply: Option<JsonV>,
) -> RefreshTally {
    let known = holder(pools, token) is Some;
    let t = token_in(pools, token);
    RefreshTally {
        checked: (tally.checked + 1) as i32,
        refreshed: (tally.refreshed + 1) as i32,
        recovered: if known && remaining_in(reply) is Some && t.quota == 0
            && remaining_in(reply)->0 as i32 > 0 {
            (tally.recovered + 1) as i32
        } else {
            tally.recovered
        },
        expired: if known && reply is None {
            (tally.expired + 1) as i32
        } else {
            tally.expired
        },
    }
}

/// The texts of the tokens whose quota is to be asked for.
pub open spec fn due_in(tokens: Seq<TokenV>, hours: i64, now: i64) -> Seq<Seq<char>>
    decreases tokens.len(),
{
    if tokens.len() == 0 {
        Seq::empty()
    } else if models::refresh_due(tokens.last(), hours, now) {
        due_in(tokens.drop_last(), hours, now).push(tokens.last().token)
    } else {
        due_in(tokens.drop_last(), hours, now)
    }
}

/// The texts of the tokens whose quota is to be asked for, over all pools.
pub open spec fn due_over(pools: Seq<PoolV>, hours: i64, now: i64) -> Seq<Seq<char>>
    decreases pools.len(),
{
    if pools.len() == 0 {
        Seq::empty()
    } else {
        due_over(pools.drop_last(), hours, now) + due_in(pools.last().tokens, hours, now)
    }
}

/// The times that are compared for any of the tokens fit in 64 bits.
pub open spec fn due_in_range(pools: Seq<PoolV>, hours: i64, now: i64) -> bool {
    forall|k: int, i: int|
        0 <= k < pools.len() && 0 <= i < pools[k].tokens.len() ==> models::refresh_in_range(
            #[trigger] pools[k].tokens[i],
            hours,
            now,
        )
}

/// The status that a name stands for; an unknown name stands for an active token.
pub open spec fn status_of(name: Option<Seq<char>>) -> TokenStatus {
    if name == Some("disabled"@) {
        TokenStatus::Disabled
    } else if name == Some("expired"@) {
        TokenStatus::Expired
    } else if name == Some("cooling"@) {
        TokenStatus::Cooling
    } else {
        TokenStatus::Active
    }
}

/// `o`, or `n` where there is nothing.
pub open spec fn or_int(o: Option<i64>, n: i64) -> i64 {
    match o {
        Some(i) => i,
        None => n,
    }
}

/// The token that a stored value stands for, read at `now`. A value without a
/// token's text stands for none.
pub open spec fn token_of(v: JsonV, now: i64) -> Option<TokenV> {
    let token = text::or_empty(json::text_in(v.field("token"@)));
    if token.len() == 0 {
        None
    } else {
        Some(
            TokenV {
                token: bare_of(token),
                status: status_of(json::text_in(v.field("status"@))),
                quota: or_int(json::int_in(v.field("quota"@)), DEFAULT_QUOTA as i64) as i32,
                created_at: or_int(json::int_in(v.field("created_at"@)), now),
                last_used_at: json::int_in(v.field("last_used_at"@)),
                use_count: or_int(json::int_in(v.field("use_count"@)), 0) as i32,
                fail_count: or_int(json::int_in(v.field("fail_count"@)), 0) as i32,
                last_fail_at: json::int_in(v.field("last_fail_at"@)),
                last_fail_reason: json::text_in(v.field("last_fail_reason"@)),
                last_sync_at: json::int_in(v.field("last_sync_at"@)),
                tags: match v.field("tags"@) {
                    Some(JsonV::Array(items)) => json::texts_among(items),
                    _ => Seq::empty(),
                },
                note: text::or_empty(json::text_in(v.field("note"@))),
                last_asset_clear_at: json::int_in(v.field("last_asset_clear_at"@)),
            },
        )
    }
}

/// The tokens that the stored values stand for.
pub open spec fn tokens_of(items: Seq<JsonV>, now: i64) -> Seq<TokenV>
    decreases items.len(),
{
    if items.len() == 0 {
        Seq::empty()
    } else {
        match token_of(items.last(), now) {
            Some(t) => tokens_of(items.drop_last(), now).push(t),
            None => tokens_of(items.drop_last(), now),
        }
    }
}

/// The pool that a stored field stands for.
pub open spec fn pool_of(field: (Seq<char>, JsonV), now: i64) -> PoolV {
    PoolV {
        name: field.0,
        tokens: match field.1 {
            JsonV::Array(items) => tokens_of(items, now),
            _ => Seq::empty(),
        },
    }
}

/// The pools that a stored value stands for.
pub open spec fn pools_of(data: JsonV, now: i64) -> Seq<PoolV> {
    match data {
        JsonV::Object(fields) => fields.map_values(|f: (Seq<char>, JsonV)| pool_of(f, now)),
        _ => Seq::empty(),
    }
}

/// The name under which a status is stored.
pub open spec fn status_name(s: TokenStatus) -> Seq<char> {
    match s {
        TokenStatus::Active => "active"@,
        TokenStatus::Disabled => "disabled"@,
        TokenStatus::Expired => "expired"@,
        TokenStatus::Cooling => "cooling"@,
    }
}

/// An integer as JSON.
pub open spec fn int_model(i: i64) -> JsonV {
    JsonV::Number(Number::of_int(i))
}

/// An optional integer as JSON.
pub open spec fn opt_int_model(o: Option<i64>) -> JsonV {
    match o {
        Some(i) => int_model(i),
        None => JsonV::Null,
    }
}

/// Texts as JSON.
pub open spec fn text_models(v: Seq<Seq<char>>) -> Seq<JsonV> {
    v.map_values(|s: Seq<char>| JsonV::Str(s))
}

/// A token as it is stored.
pub open spec fn token_fields(t: TokenV) -> Seq<(Seq<char>, JsonV)> {
    seq![
        ("token"@, JsonV::Str(t.token)),
        ("status"@, JsonV::Str(status_name(t.status))),
        ("quota"@, int_model(t.quota as i64)),
        ("created_at"@, int_model(t.created_at)),
        ("last_used_at"@, opt_int_model(t.last_used_at)),
        ("use_count"@, int_model(t.use_count as i64)),
        ("fail_count"@, int_model(t.fail_count as i64)),
        ("last_fail_at"@, opt_int_model(t.last_fail_at)),
        ("last_fail_reason"@, json::opt_text_model(t.last_fail_reason)),
        ("last_sync_at"@, opt_int_model(t.last_sync_at)),
        ("tags"@, JsonV::Array(text_models(t.tags))),
        ("note"@, JsonV::Str(t.note)),
        ("last_asset_clear_at"@, opt_int_model(t.last_asset_clear_at)),
    ]
}

/// A token as it is stored.
pub open spec fn token_json(t: TokenV) -> JsonV {
    JsonV::Object(token_fields(t))
}

/// Pools as they are stored.
pub open spec fn saved(pools: Seq<PoolV>) -> JsonV {
    JsonV::Object(
        pools.map_values(
            |p: PoolV|
                (p.name, JsonV::Array(p.tokens.map_values(|t: TokenV| token_json(t)))),
        ),
    )
}

fn opt_int_value(o: Option<i64>) -> (r: Json)
    ensures
        r@ == opt_int_model(o),
{
    match o {
        Some(i) => json::int_value(i),
        None => Json::Null,
    }
}

fn tags_value(tags: &Vec<String>) -> (r: Json)
    ensures
        r@ == JsonV::Array(text_models(text::texts(tags@))),
{
    let mut out: Vec<Json> = Vec::new();
    let n: usize = tags.len();
    let mut i: usize = 0;
    while i < n
        invariant
            n == tags@.len(),
            i <= n,
            json::models(out@) =~= text_models(text::texts(tags@)).take(i as int),
        decreases n - i,
    {
        let ghost held = out@;
        out.push(json::text_value(tags[i].as_str()));
        proof {
            assert(json::models(out@) =~= json::models(held).push(JsonV::Str(tags@[i as int]@)));
        }
        i += 1;
    }
    proof {
        assert(json::models(out@) =~= text_models(text::texts(tags@)));
    }
    json::array(out)
}

/// A token as it is stored.
pub fn token_value(t: &TokenInfo) -> (r: Json)
    ensures
        r@ == token_json(t@),
{
    let mut f = Fields::new();
    let status: &str = match t.status {
        TokenStatus::Active => "active",
        TokenStatus::Disabled => "disabled",
        TokenStatus::Expired => "expired",
        TokenStatus::Cooling => "cooling",
    };
    f.add("token", json::text_value(t.token.as_str()));
    f.add("status", json::text_value(status));
    f.add("quota", json::int_value(t.quota as i64));
    f.add("created_at", json::int_value(t.created_at));
    f.add("last_used_at", opt_int_value(t.last_used_at));
    f.add("use_count", json::int_value(t.use_count as i64));
    f.add("fail_count", json::int_value(t.fail_count as i64));
    f.add("last_fail_at", opt_int_value(t.last_fail_at));
    f.add("last_fail_reason", json::opt_text_value(&t.last_fail_reason));
    f.add("last_sync_at", opt_int_value(t.last_sync_at));
    f.add("tags", tags_value(&t.tags));
    f.add("note", json::text_value(t.note.as_str()));
    f.add("last_asset_clear_at", opt_int_value(t.last_asset_clear_at));
    proof {
        assert(f@ =~= token_fields(t@));
    }
    f.object()
}

fn int_or(o: Option<i64>, n: i64) -> (r: i64)
    ensures
        r == or_int(o, n),
{
    match o {
        Some(i) => i,
        None => n,
    }
}

/// The token that a stored value stands for, read at `now`.
pub fn token_from_value(v: &Json, now: i64) -> (r: Option<TokenInfo>)
    ensures
        match r {
            Some(t) => token_of(v@, now) == Some(t@),
            None => token_of(v@, now) is None,
        },
{
    let token = text::owned_or_empty(v.get_str("token"));
    if text::is_empty(token.as_str()) {
        return None;
    }
    let status = match v.get_str("status") {
        Some(s) => if text::same_text(s.as_str(), "disabled") {
            TokenStatus::Disabled
        } else if text::same_text(s.as_str(), "expired") {
            TokenStatus::Expired
        } else if text::same_text(s.as_str(), "cooling") {
            TokenStatus::Cooling
        } else {
            TokenStatus::Active
        },
        None => TokenStatus::Active,
    };
    let tags = match v.get("tags") {
        Some(Json::Array(items)) => {
            broadcast use json::lemma_array_model;

            json::texts_of(items)
        },
        _ => {
            let none: Vec<String> = Vec::new();
            proof {
                assert(text::texts(none@) =~= Seq::empty());
            }
            none
        },
    };
    let reason = match v.get_str("last_fail_reason") {
        Some(s) => Some(s.clone()),
        None => None,
    };
    Some(
        TokenInfo {
            token: bare(token.as_str()),
            status,
            quota: int_or(v.get_i64("quota"), DEFAULT_QUOTA as i64) as i32,
            created_at: int_or(v.get_i64("created_at"), now),
            last_used_at: v.get_i64("last_used_at"),
            use_count: int_or(v.get_i64("use_count"), 0) as i32,
            fail_count: int_or(v.get_i64("fail_count"), 0) as i32,
            last_fail_at: v.get_i64("last_fail_at"),
            last_fail_reason: reason,
            last_sync_at: v.get_i64("last_sync_at"),
            tags,
            note: text::owned_or_empty(v.get_str("note")),
            last_asset_clear_at: v.get_i64("last_asset_clear_at"),
        },
    )
}

/// The pools of tokens, and whether they were read from storage.
#[derive(Debug)]
pub struct TokenManager {
    pub pools: Vec<TokenPool>,
    pub initialized: bool,
}

impl View for TokenManager {
    type V = Seq<PoolV>;

    open spec fn view(&self) -> Seq<PoolV> {
        pool_views(self.pools@)
    }
}

impl TokenManager {
    /// No two pools have one name.
    pub open spec fn wf(&self) -> bool {
        distinct_names(self@)
    }

    /// No pools, nothing read yet.
    pub fn new() -> (r: TokenManager)
        ensures
            r@ == Seq::<PoolV>::empty(),
            !r.initialized,
            r.wf(),
    {
        let r = TokenManager { pools: Vec::new(), initialized: false };
        proof {
            assert(r@ =~= Seq::empty());
        }
        r
    }

    /// Takes the pools from what the storage holds, unless that was done before.
    pub fn load(&mut self, data: &Json)
        ensures
            final(self).initialized,
            old(self).initialized ==> *final(self) == *old(self),
            !old(self).initialized ==> exists|now: i64| #[trigger]
                outside::clock_time(now) && final(self)@ == pools_of(data@, now),
            old(self).wf() && json::names_once(data@) ==> final(self).wf(),
    {
        let now = outside::now_millis();
        self.load_at(data, now)
    }

    /// Takes the pools from what the storage holds at `now`, unless that was done before.
    pub fn load_at(&mut self, data: &Json, now: i64)
        ensures
            final(self).initialized,
            old(self).initialized ==> *final(self) == *old(self),
            !old(self).initialized ==> final(self)@ == pools_of(data@, now),
            old(self).wf() && json::names_once(data@) ==> final(self).wf(),
    {
        if self.initialized {
            return;
        }
        proof {
            if json::names_once(data@) {
                laws::law_loaded_names_are_distinct(data@, now);
            }
        }
        self.pools = pools_from(data, now);
        self.initialized = true;
    }

    /// Forgets that the pools were read, so that the next load reads them again.
    pub fn expire(&mut self)
        ensures
            final(self).pools == old(self).pools,
            !final(self).initialized,
            old(self).wf() ==> final(self).wf(),
    {
        self.initialized = false;
    }

    /// Takes the pools from what the storage holds now, whether or not that was done before.
    pub fn reload(&mut self, data: &Json)
        ensures
            final(self).initialized,
            exists|now: i64| #[trigger]
                outside::clock_time(now) && final(self)@ == pools_of(data@, now),
            old(self).wf() && json::names_once(data@) ==> final(self).wf(),
    {
        self.expire();
        self.load(data)
    }

    /// Forgets that the pools were read, `elapsed` nanoseconds after they were,
    /// where that is done every `interval` nanoseconds. Without an interval
    /// they are kept. Says whether they are to be read again.
    pub fn reload_if_stale(&mut self, elapsed: u128, interval: Option<u128>) -> (r: bool)
        ensures
            r == (interval is Some && elapsed >= interval->0),
            final(self).pools == old(self).pools,
            final(self).initialized == (old(self).initialized && !r),
            old(self).wf() ==> final(self).wf(),
    {
        match interval {
            Some(limit) => if elapsed >= limit {
                self.expire();
                true
            } else {
                false
            },
            None => false,
        }
    }

    /// What is to be stored.
    pub fn save(&self) -> (r: Json)
        ensures
            r@ == saved(self@),
    {
        let mut f = Fields::new();
        let n: usize = self.pools.len();
        let mut k: usize = 0;
        while k < n
            invariant
                n == self.pools@.len(),
                k <= n,
                f@ =~= saved(self@)->Object_0.take(k as int),
            decreases n - k,
        {
            proof {
                assert(self@[k as int] == self.pools@[k as int]@);
            }
            let list = tokens_value(&self.pools[k]);
            f.add(self.pools[k].name.as_str(), list);
            k += 1;
        }
        proof {
            assert(f@ =~= saved(self@)->Object_0);
        }
        f.object()
    }

    fn find_pool(&self, name: &str) -> (r: Option<usize>)
        ensures
            match r {
                Some(k) => k < self.pools@.len() && named(self@, name@) == Some(k as int),
                None => named(self@, name@) is None,
            },
    {
        let n: usize = self.pools.len();
        let mut k: usize = 0;
        while k < n
            invariant
                n == self.pools@.len(),
                k <= n,
                named(self@, name@) == named_from(self@, name@, k as int),
            decreases n - k,
        {
            proof {
                assert(self@[k as int] == self.pools@[k as int]@);
            }
            if text::same_text(self.pools[k].name.as_str(), name) {
                return Some(k);
            }
            k += 1;
        }
        None
    }

    fn find_holder(&self, raw: &str) -> (r: Option<usize>)
        ensures
            match r {
                Some(k) => k < self.pools@.len() && holder(self@, raw@) == Some(k as int),
                None => holder(self@, raw@) is None,
            },
    {
        let n: usize = self.pools.len();
        let mut k: usize = 0;
        while k < n
            invariant
                n == self.pools@.len(),
                k <= n,
                holder(self@, raw@) == holder_from(self@, raw@, k as int),
            decreases n - k,
        {
            proof {
                assert(self@[k as int] == self.pools@[k as int]@);
            }
            if self.pools[k].position(raw).is_some() {
                return Some(k);
            }
            k += 1;
        }
        None
    }

    fn token_mut(&mut self, raw: &str) -> (r: Option<&mut TokenInfo>)
        ensures
            match r {
                Some(t) => {
                    &&& holder(old(self)@, raw@) is Some
                    &&& t@ == token_in(old(self)@, raw@)
                    &&& final(self)@ == with_token(old(self)@, raw@, final(t)@)
                    &&& final(self).initialized == old(self).initialized
                    &&& old(self).wf() ==> final(self).wf()
                },
                None => holder(old(self)@, raw@) is None && *final(self) == *old(self),
            },
    {
        match self.find_holder(raw) {
            Some(k) => {
                proof {
                    lemma_holder_from(self@, raw@, 0);
                    assert(self@[k as int] == self.pools@[k as int]@);
                }
                let ghost held = self.pools@;
                proof {
                    let pools = self@;
                    assert forall|t: TokenV| distinct_names(pools) implies distinct_names(
                        #[trigger] with_token(pools, raw@, t),
                    ) by {
                        laws::law_pool_names_stay_distinct(pools, raw@, raw@, t, 0);
                    }
                }
                let p = &mut self.pools[k];
                proof {
                    assert(pool_views(held.update(k as int, *final(p))) =~= pool_views(
                        held,
                    ).update(k as int, final(p)@));
                }
                p.get_mut(raw)
            },
            None => None,
        }
    }

    fn token_ref(&self, raw: &str) -> (r: Option<&TokenInfo>)
        ensures
            match r {
                Some(t) => holder(self@, raw@) is Some && t@ == token_in(self@, raw@),
                None => holder(self@, raw@) is None,
            },
    {
        match self.find_holder(raw) {
            Some(k) => {
                proof {
                    lemma_holder_from(self@, raw@, 0);
                    assert(self@[k as int] == self.pools@[k as int]@);
                }
                match self.pools[k].position(raw) {
                    Some(i) => {
                        proof {
                            assert(self@[k as int].tokens[i as int]
                                == self.pools@[k as int].tokens@[i as int]@);
                        }
                        Some(&self.pools[k].tokens[i])
                    },
                    None => None,
                }
            },
            None => None,
        }
    }

    /// A token of the pool `pool_name` to make a request with: the bare text of
    /// one of those with the most quota.
    pub fn get_token(&self, pool_name: &str) -> (r: Option<String>)
        ensures
            match r {
                Some(s) => named(self@, pool_name@) is Some && handed_out(
                    self@[named(self@, pool_name@)->0].tokens,
                    s@,
                ),
                None => named(self@, pool_name@) is None || forall|i: int|
                    0 <= i < self@[named(self@, pool_name@)->0].tokens.len()
                        ==> !models::available(
                        #[trigger] self@[named(self@, pool_name@)->0].tokens[i],
                    ),
            },
    {
        match self.find_pool(pool_name) {
            Some(k) => {
                proof {
                    assert(self@[k as int] == self.pools@[k as int]@);
                }
                match self.pools[k].select() {
                    Some(t) => {
                        proof {
                            let tokens = self@[k as int].tokens;
                            let i = choose|i: int| #[trigger]
                                pool::is_best(tokens, i) && t@ == tokens[i];
                            assert(pool::is_best(tokens, i) && tokens[i].token == t.token@);
                            assert(handed_out(tokens, bare_of(t.token@)));
                        }
                        Some(bare(t.token.as_str()))
                    },
                    None => None,
                }
            },
            None => None,
        }
    }

    /// Takes a request's cost from the quota of a token, now. Says whether the
    /// token is known.
    pub fn consume(&mut self, token_str: &str, effort: EffortType) -> (r: bool)
        requires
            holder(old(self)@, bare_of(token_str@)) is Some ==> models::consumable(
                token_in(old(self)@, bare_of(token_str@)),
                effort,
            ),
        ensures
            r == (holder(old(self)@, bare_of(token_str@)) is Some),
            exists|now: i64| #[trigger]
                outside::clock_time(now) && final(self)@ == with_token(
                    old(self)@,
                    bare_of(token_str@),
                    models::consumed(token_in(old(self)@, bare_of(token_str@)), effort, now),
                ),
            final(self).initialized == old(self).initialized,
            old(self).wf() ==> final(self).wf(),
    {
        let now = outside::now_millis();
        self.consume_at(token_str, effort, now)
    }

    /// Takes a request's cost from the quota of a token at `now`. Says whether
    /// the token is known.
    pub fn consume_at(&mut self, token_str: &str, effort: EffortType, now: i64) -> (r: bool)
        requires
            holder(old(self)@, bare_of(token_str@)) is Some ==> models::consumable(
                token_in(old(self)@, bare_of(token_str@)),
                effort,
            ),
        ensures
            r == (holder(old(self)@, bare_of(token_str@)) is Some),
            final(self)@ == with_token(
                old(self)@,
                bare_of(token_str@),
                models::consumed(token_in(old(self)@, bare_of(token_str@)), effort, now),
            ),
            final(self).initialized == old(self).initialized,
            old(self).wf() ==> final(self).wf(),
    {
        let raw = bare(token_str);
        match self.token_mut(raw.as_str()) {
            Some(t) => {
                t.consume_at(&effort, now);
                true
            },
            None => false,
        }
    }

    /// Whether the token is in one of the pools.
    pub fn knows(&self, token_str: &str) -> (r: bool)
        ensures
            r == (holder(self@, bare_of(token_str@)) is Some),
    {
        let raw = bare(token_str);
        self.find_holder(raw.as_str()).is_some()
    }

    /// Takes note, now, of what the usage service replied about a token
    /// (nothing where it did not). Says whether that changed the token.
    pub fn sync_usage(
        &mut self,
        token_str: &str,
        reply: &Option<Json>,
        fallback_effort: EffortType,
        consume_on_fail: bool,
        is_usage: bool,
    ) -> (r: bool)
        requires
            holder(old(self)@, bare_of(token_str@)) is Some ==> sync_in_range(
                token_in(old(self)@, bare_of(token_str@)),
                remaining_in(reply_model(*reply)),
                fallback_effort,
                consume_on_fail,
                is_usage,
            ),
        ensures
            r == (holder(old(self)@, bare_of(token_str@)) is Some && (remaining_in(
                reply_model(*reply),
            ) is Some || consume_on_fail)),
            exists|now: i64| #[trigger]
                outside::clock_time(now) && final(self)@ == with_token(
                    old(self)@,
                    bare_of(token_str@),
                    after_sync(
                        token_in(old(self)@, bare_of(token_str@)),
                        remaining_in(reply_model(*reply)),
                        fallback_effort,
                        consume_on_fail,
                        is_usage,
                        now,
                    ),
                ),
            final(self).initialized == old(self).initialized,
            old(self).wf() ==> final(self).wf(),
    {
        let now = outside::now_millis();
        self.sync_usage_at(token_str, reply, fallback_effort, consume_on_fail, is_usage, now)
    }

    /// Takes note of what the usage service replied about a token at `now`.
    pub fn sync_usage_at(
        &mut self,
        token_str: &str,
        reply: &Option<Json>,
        fallback_effort: EffortType,
        consume_on_fail: bool,
        is_usage: bool,
        now: i64,
    ) -> (r: bool)
        requires
            holder(old(self)@, bare_of(token_str@)) is Some ==> sync_in_range(
                token_in(old(self)@, bare_of(token_str@)),
                remaining_in(reply_model(*reply)),
                fallback_effort,
                consume_on_fail,
                is_usage,
            ),
        ensures
            r == (holder(old(self)@, bare_of(token_str@)) is Some && (remaining_in(
                reply_model(*reply),
            ) is Some || consume_on_fail)),
            final(self)@ == with_token(
                old(self)@,
                bare_of(token_str@),
                after_sync(
                    token_in(old(self)@, bare_of(token_str@)),
                    remaining_in(reply_model(*reply)),
                    fallback_effort,
                    consume_on_fail,
                    is_usage,
                    now,
                ),
            ),
            final(self).initialized == old(self).initialized,
            old(self).wf() ==> final(self).wf(),
    {
        let raw = bare(token_str);
        let told = remaining(reply);
        match self.token_mut(raw.as_str()) {
            Some(t) => match told {
                Some(n) => {
                    t.update_quota(n as i32);
                    t.record_success_at(is_usage, now);
                    true
                },
                None => if consume_on_fail {
                    t.consume_at(&fallback_effort, now);
                    true
                } else {
                    false
                },
            },
            None => false,
        }
    }

    /// Takes note of a failure with a token, now. Says whether the token is known.
    pub fn record_fail(&mut self, token_str: &str, status_code: u16, reason: &str) -> (r: bool)
        requires
            holder(old(self)@, bare_of(token_str@)) is Some && status_code == 401 ==> token_in(
                old(self)@,
                bare_of(token_str@),
            ).fail_count < i32::MAX,
        ensures
            r == (holder(old(self)@, bare_of(token_str@)) is Some),
            exists|now: i64| #[trigger]
                outside::clock_time(now) && final(self)@ == with_token(
                    old(self)@,
                    bare_of(token_str@),
                    models::failed(
                        token_in(old(self)@, bare_of(token_str@)),
                        status_code,
                        reason@,
                        now,
                    ),
                ),
            final(self).initialized == old(self).initialized,
            old(self).wf() ==> final(self).wf(),
    {
        let now = outside::now_millis();
        self.record_fail_at(token_str, status_code, reason, now)
    }

    /// Takes note of a failure with a token at `now`. Says whether the token is known.
    pub fn record_fail_at(
        &mut self,
        token_str: &str,
        status_code: u16,
        reason: &str,
        now: i64,
    ) -> (r: bool)
        requires
            holder(old(self)@, bare_of(token_str@)) is Some && status_code == 401 ==> token_in(
                old(self)@,
                bare_of(token_str@),
            ).fail_count < i32::MAX,
        ensures
            r == (holder(old(self)@, bare_of(token_str@)) is Some),
            final(self)@ == with_token(
                old(self)@,
                bare_of(token_str@),
                models::failed(
                    token_in(old(self)@, bare_of(token_str@)),
                    status_code,
                    reason@,
                    now,
                ),
            ),
            final(self).initialized == old(self).initialized,
            old(self).wf() ==> final(self).wf(),
    {
        let raw = bare(token_str);
        match self.token_mut(raw.as_str()) {
            Some(t) => {
                t.record_fail_at(status_code, reason, now);
                true
            },
            None => false,
        }
    }

    /// Puts a token into a pool, now. Says whether it is new there.
    pub fn add(&mut self, token: &str, pool_name: &str) -> (r: bool)
        ensures
            r == is_new(old(self)@, bare_of(token@), pool_name@),
            exists|now: i64| #[trigger]
                outside::clock_time(now) && final(self)@ == added(
                    old(self)@,
                    bare_of(token@),
                    pool_name@,
                    now,
                ),
            final(self).initialized == old(self).initialized,
            old(self).wf() ==> final(self).wf(),
    {
        let now = outside::now_millis();
        self.add_at(token, pool_name, now)
    }

    /// Puts a token into a pool at `now`. Says whether it is new there.
    pub fn add_at(&mut self, token: &str, pool_name: &str, now: i64) -> (r: bool)
        ensures
            r == is_new(old(self)@, bare_of(token@), pool_name@),
            final(self)@ == added(old(self)@, bare_of(token@), pool_name@, now),
            final(self).initialized == old(self).initialized,
            old(self).wf() ==> final(self).wf(),
    {
        let raw = bare(token);
        let ghost fresh = models::fresh_token(bare_of(token@), now);
        proof {
            if self.wf() {
                laws::law_pool_names_stay_distinct(
                    self@,
                    bare_of(token@),
                    pool_name@,
                    fresh,
                    now,
                );
            }
        }
        match self.find_pool(pool_name) {
            Some(k) => {
                proof {
                    lemma_named_from(self@, pool_name@, 0);
                    assert(self@[k as int] == self.pools@[k as int]@);
                }
                if self.pools[k].position(raw.as_str()).is_some() {
                    return false;
                }
                let ghost held = self.pools@;
                let p = &mut self.pools[k];
                p.add(TokenInfo::new_at(raw, now));
                proof {
                    assert(pool_views(self.pools@) =~= pool_views(held).update(
                        k as int,
                        self.pools@[k as int]@,
                    ));
                }
                true
            },
            None => {
                let ghost held = self.pools@;
                let mut p = TokenPool::new(pool_name);
                p.add(TokenInfo::new_at(raw, now));
                proof {
                    assert(p@.tokens =~= seq![fresh]);
                }
                self.pools.push(p);
                proof {
                    assert(pool_views(self.pools@) =~= pool_views(held).push(p@));
                }
                true
            },
        }
    }

    /// Takes a token, as it is written, out of the first pool that has it.
    /// Says whether one had it.
    pub fn remove(&mut self, token: &str) -> (r: bool)
        ensures
            r == (holder(old(self)@, token@) is Some),
            final(self)@ == removed(old(self)@, token@),
            final(self).initialized == old(self).initialized,
            old(self).wf() ==> final(self).wf(),
    {
        match self.find_holder(token) {
            Some(k) => {
                proof {
                    lemma_holder_from(self@, token@, 0);
                    assert(self@[k as int] == self.pools@[k as int]@);
                    if self.wf() {
                        laws::law_pool_names_stay_distinct(
                            self@,
                            token@,
                            token@,
                            token_in(self@, token@),
                            0,
                        );
                    }
                }
                let ghost held = self.pools@;
                let p = &mut self.pools[k];
                p.remove(token);
                proof {
                    assert(pool_views(self.pools@) =~= pool_views(held).update(
                        k as int,
                        self.pools@[k as int]@,
                    ));
                }
                true
            },
            None => false,
        }
    }

    /// Makes the tokens of all pools as good as new.
    pub fn reset_all(&mut self)
        ensures
            final(self)@ == renewed_pools(old(self)@),
            final(self).initialized == old(self).initialized,
            old(self).wf() ==> final(self).wf(),
    {
        let ghost before = self@;
        let n: usize = self.pools.len();
        let mut k: usize = 0;
        while k < n
            invariant
                n == self.pools@.len(),
                n == before.len(),
                k <= n,
                self.initialized == old(self).initialized,
                forall|j: int| 0 <= j < k ==> #[trigger] self@[j] == renewed_pools(before)[j],
                forall|j: int| k <= j < n ==> #[trigger] self@[j] == before[j],
            decreases n - k,
        {
            let ghost held = self.pools@;
            proof {
                assert(self@[k as int] == self.pools@[k as int]@);
            }
            let p = &mut self.pools[k];
            reset_pool(p);
            proof {
                assert(pool_views(self.pools@) =~= pool_views(held).update(
                    k as int,
                    self.pools@[k as int]@,
                ));
            }
            k += 1;
        }
        proof {
            assert(self@ =~= renewed_pools(before));
            assert(distinct_names(before) ==> distinct_names(renewed_pools(before)));
        }
    }

    /// Makes a token as good as new. Says whether the token is known.
    pub fn reset_token(&mut self, token_str: &str) -> (r: bool)
        ensures
            r == (holder(old(self)@, bare_of(token_str@)) is Some),
            final(self)@ == with_token(
                old(self)@,
                bare_of(token_str@),
                models::renewed(token_in(old(self)@, bare_of(token_str@))),
            ),
            final(self).initialized == old(self).initialized,
            old(self).wf() ==> final(self).wf(),
    {
        let raw = bare(token_str);
        match self.token_mut(raw.as_str()) {
            Some(t) => {
                t.reset();
                true
            },
            None => false,
        }
    }

    /// How the tokens of each pool are doing, by the name of the pool.
    pub fn get_stats(&self) -> (r: Vec<(String, TokenPoolStats)>)
        requires
            forall|k: int| 0 <= k < self@.len() ==> pool::sums_in_range((#[trigger] self@[k]).tokens),
        ensures
            r@.len() == self@.len(),
            forall|k: int|
                0 <= k < r@.len() ==> (#[trigger] r@[k]).0@ == self@[k].name && r@[k].1
                    == pool::stats_of(self@[k].tokens),
    {
        let mut out: Vec<(String, TokenPoolStats)> = Vec::new();
        let n: usize = self.pools.len();
        let mut k: usize = 0;
        while k < n
            invariant
                n == self.pools@.len(),
                k <= n,
                out@.len() == k,
                forall|j: int|
                    0 <= j < self@.len() ==> pool::sums_in_range((#[trigger] self@[j]).tokens),
                forall|j: int|
                    0 <= j < k ==> (#[trigger] out@[j]).0@ == self@[j].name && out@[j].1
                        == pool::stats_of(self@[j].tokens),
            decreases n - k,
        {
            proof {
                assert(self@[k as int] == self.pools@[k as int]@);
            }
            out.push((self.pools[k].name.clone(), self.pools[k].stats()));
            k += 1;
        }
        out
    }

    /// The tokens of a pool; none where there is no such pool.
    pub fn get_pool_tokens(&self, pool_name: &str) -> (r: Vec<TokenInfo>)
        ensures
            pool::token_views(r@) == (match named(self@, pool_name@) {
                Some(k) => self@[k].tokens,
                None => Seq::empty(),
            }),
    {
        match self.find_pool(pool_name) {
            Some(k) => {
                proof {
                    assert(self@[k as int] == self.pools@[k as int]@);
                }
                self.pools[k].list()
            },
            None => {
                let none: Vec<TokenInfo> = Vec::new();
                proof {
                    assert(pool::token_views(none@) =~= Seq::empty());
                }
                none
            },
        }
    }

    /// Whether a token is known and has the tag `tag`.
    pub fn has_tag(&self, token: &str, tag: &str) -> (r: bool)
        ensures
            r == (holder(self@, bare_of(token@)) is Some && token_in(
                self@,
                bare_of(token@),
            ).tags.contains(tag@)),
    {
        let raw = bare(token);
        match self.token_ref(raw.as_str()) {
            Some(t) => text::has_text(&t.tags, tag),
            None => false,
        }
    }

    /// Gives a token the tag `tag`, unless it has it. Says whether the token is known.
    pub fn add_tag(&mut self, token: &str, tag: &str) -> (r: bool)
        ensures
            r == (holder(old(self)@, bare_of(token@)) is Some),
            final(self)@ == with_token(
                old(self)@,
                bare_of(token@),
                tagged(token_in(old(self)@, bare_of(token@)), tag@),
            ),
            final(self).initialized == old(self).initialized,
            old(self).wf() ==> final(self).wf(),
    {
        let raw = bare(token);
        match self.token_mut(raw.as_str()) {
            Some(t) => {
                if !text::has_text(&t.tags, tag) {
                    let ghost held = t.tags@;
                    t.tags.push(String::from_str(tag));
                    proof {
                        assert(text::texts(t.tags@) =~= text::texts(held).push(tag@));
                    }
                }
                true
            },
            None => false,
        }
    }

    /// Takes note that the assets of a token were cleared, now. Says whether
    /// the token is known.
    pub fn mark_asset_clear(&mut self, token: &str) -> (r: bool)
        ensures
            r == (holder(old(self)@, bare_of(token@)) is Some),
            exists|now: i64| #[trigger]
                outside::clock_time(now) && final(self)@ == with_token(
                    old(self)@,
                    bare_of(token@),
                    TokenV {
                        last_asset_clear_at: Some(now),
                        ..token_in(old(self)@, bare_of(token@))
                    },
                ),
            final(self).initialized == old(self).initialized,
            old(self).wf() ==> final(self).wf(),
    {
        let now = outside::now_millis();
        let raw = bare(token);
        match self.token_mut(raw.as_str()) {
            Some(t) => {
                t.last_asset_clear_at = Some(now);
                true
            },
            None => false,
        }
    }

    /// The tokens whose quota is to be asked for at `now`.
    pub fn cooling_tokens(&self, interval_hours: i64, now: i64) -> (r: Vec<String>)
        requires
            due_in_range(self@, interval_hours, now),
        ensures
            text::texts(r@) == due_over(self@, interval_hours, now),
    {
        let mut out: Vec<String> = Vec::new();
        let n: usize = self.pools.len();
        let mut k: usize = 0;
        proof {
            assert(self@.take(0) =~= Seq::empty());
            assert(text::texts(out@) =~= Seq::empty());
        }
        while k < n
            invariant
                n == self.pools@.len(),
                k <= n,
                due_in_range(self@, interval_hours, now),
                text::texts(out@) == due_over(self@.take(k as int), interval_hours, now),
            decreases n - k,
        {
            let p = &self.pools[k];
            let ghost start = text::texts(out@);
            let ghost tokens = p@.tokens;
            let m: usize = p.tokens.len();
            let mut i: usize = 0;
            proof {
                assert(self@[k as int] == p@);
                assert(tokens.take(0) =~= Seq::empty());
                assert(start + Seq::<Seq<char>>::empty() =~= start);
            }
            while i < m
                invariant
                    m == p.tokens@.len(),
                    i <= m,
                    k < n,
                    n == self.pools@.len(),
                    self@[k as int] == p@,
                    tokens == pool::token_views(p.tokens@),
                    due_in_range(self@, interval_hours, now),
                    text::texts(out@) == start + due_in(tokens.take(i as int), interval_hours, now),
                decreases m - i,
            {
                proof {
                    assert(tokens.take(i + 1).drop_last() =~= tokens.take(i as int));
                    assert(tokens.take(i + 1).last() == p.tokens@[i as int]@);
                    assert(self@[k as int].tokens[i as int] == p.tokens@[i as int]@);
                }
                if p.tokens[i].need_refresh_at(interval_hours, now) {
                    let ghost held = out@;
                    out.push(p.tokens[i].token.clone());
                    proof {
                        assert(text::texts(out@) =~= text::texts(held).push(
                            p.tokens@[i as int].token@,
                        ));
                        assert(text::texts(out@) =~= start + due_in(
                            tokens.take(i + 1),
                            interval_hours,
                            now,
                        ));
                    }
                }
                i += 1;
            }
            proof {
                assert(tokens.take(i as int) =~= tokens);
                assert(self@.take(k + 1).drop_last() =~= self@.take(k as int));
                assert(self@.take(k + 1).last() == p@);
            }
            k += 1;
        }
        proof {
            assert(self@.take(k as int) =~= self@);
        }
        out
    }

    /// Takes note of the answer about the quota of a cooling token at `now`
    /// (nothing where there was no answer).
    pub fn refresh_one(
        &mut self,
        token: &str,
        reply: &Option<Json>,
        tally: RefreshTally,
        now: i64,
    ) -> (r: RefreshTally)
        requires
            tally.checked < i32::MAX,
            tally.refreshed < i32::MAX,
            tally.recovered < i32::MAX,
            tally.expired < i32::MAX,
        ensures
            r == tallied(tally, old(self)@, token@, reply_model(*reply)),
            final(self)@ == with_token(
                old(self)@,
                token@,
                after_refresh(token_in(old(self)@, token@), reply_model(*reply), now),
            ),
            final(self).initialized == old(self).initialized,
            old(self).wf() ==> final(self).wf(),
    {
        let told = remaining(reply);
        let answered = reply.is_some();
        let mut tally = tally;
        match self.token_mut(token) {
            Some(t) => if answered {
                if let Some(n) = told {
                    let old_quota = t.quota;
                    t.update_quota(n as i32);
                    t.mark_synced_at(now);
                    if old_quota == 0 && t.quota > 0 {
                        tally.recovered = tally.recovered + 1;
                    }
                }
            } else {
                t.status = TokenStatus::Expired;
                t.mark_synced_at(now);
                tally.expired = tally.expired + 1;
            },
            None => {},
        }
        tally.checked = tally.checked + 1;
        tally.refreshed = tally.refreshed + 1;
        tally
    }
}

/// An answer about the quota of a cooling token, where there was one.
#[derive(Debug)]
pub struct QuotaReply {
    pub token: String,
    pub reply: Option<Json>,
}

/// The value of an answer.
pub open spec fn quota_view(q: QuotaReply) -> (Seq<char>, Option<JsonV>) {
    (q.token@, reply_model(q.reply))
}

/// The values of a list of answers.
pub open spec fn quota_views(v: Seq<QuotaReply>) -> Seq<(Seq<char>, Option<JsonV>)> {
    v.map_values(|q: QuotaReply| quota_view(q))
}

/// The pools once the answers were taken note of at `now`, one after the other.
pub open spec fn refreshed_all(
    pools: Seq<PoolV>,
    replies: Seq<(Seq<char>, Option<JsonV>)>,
    now: i64,
) -> Seq<PoolV>
    decreases replies.len(),
{
    if replies.len() == 0 {
        pools
    } else {
        let before = refreshed_all(pools, replies.drop_last(), now);
        let token = replies.last().0;
        with_token(before, token, after_refresh(token_in(before, token), replies.last().1, now))
    }
}

/// The tally over the answers.
pub open spec fn tally_all(
    pools: Seq<PoolV>,
    replies: Seq<(Seq<char>, Option<JsonV>)>,
    now: i64,
) -> RefreshTally
    decreases replies.len(),
{
    if replies.len() == 0 {
        RefreshTally { checked: 0, refreshed: 0, recovered: 0, expired: 0 }
    } else {
        tallied(
            tally_all(pools, replies.drop_last(), now),
            refreshed_all(pools, replies.drop_last(), now),
            replies.last().0,
            replies.last().1,
        )
    }
}

impl TokenManager {
    /// Takes note, now, of the answers about the quotas of cooling tokens.
    pub fn refresh_cooling_tokens(&mut self, replies: &Vec<QuotaReply>) -> (r: RefreshTally)
        requires
            replies@.len() < i32::MAX,
        ensures
            exists|now: i64| #[trigger]
                outside::clock_time(now) && final(self)@ == refreshed_all(
                    old(self)@,
                    quota_views(replies@),
                    now,
                ) && r == tally_all(old(self)@, quota_views(replies@), now),
            final(self).initialized == old(self).initialized,
            old(self).wf() ==> final(self).wf(),
    {
        let now = outside::now_millis();
        self.refresh_cooling_tokens_at(replies, now)
    }

    /// Takes note of the answers about the quotas of cooling tokens at `now`.
    pub fn refresh_cooling_tokens_at(&mut self, replies: &Vec<QuotaReply>, now: i64) -> (r:
        RefreshTally)
        requires
            replies@.len() < i32::MAX,
        ensures
            final(self)@ == refreshed_all(old(self)@, quota_views(replies@), now),
            r == tally_all(old(self)@, quota_views(replies@), now),
            final(self).initialized == old(self).initialized,
            old(self).wf() ==> final(self).wf(),
    {
        let ghost start = self@;
        let ghost all = quota_views(replies@);
        let mut tally = RefreshTally::new();
        let n: usize = replies.len();
        let mut i: usize = 0;
        proof {
            assert(all.take(0) =~= Seq::empty());
        }
        while i < n
            invariant
                n == replies@.len(),
                n < i32::MAX,
                i <= n,
                all == quota_views(replies@),
                self.initialized == old(self).initialized,
                old(self).wf() ==> self.wf(),
                self@ == refreshed_all(start, all.take(i as int), now),
                tally == tally_all(start, all.take(i as int), now),
                tally.checked == i,
                tally.refreshed == i,
                0 <= tally.recovered <= i,
                0 <= tally.expired <= i,
            decreases n - i,
        {
            proof {
                assert(all.take(i + 1).drop_last() =~= all.take(i as int));
                assert(all.take(i + 1).last() == quota_view(replies@[i as int]));
            }
            tally = self.refresh_one(replies[i].token.as_str(), &replies[i].reply, tally, now);
            i += 1;
        }
        proof {
            assert(all.take(i as int) =~= all);
        }
        tally
    }
}

/// Every answer is counted once.
pub proof fn law_tally_counts_every_answer(
    pools: Seq<PoolV>,
    replies: Seq<(Seq<char>, Option<JsonV>)>,
    now: i64,
)
    requires
        replies.len() < i32::MAX,
    ensures
        tally_all(pools, replies, now).checked == replies.len(),
        tally_all(pools, replies, now).refreshed == replies.len(),
        0 <= tally_all(pools, replies, now).recovered,
        0 <= tally_all(pools, replies, now).expired,
        tally_all(pools, replies, now).recovered + tally_all(pools, replies, now).expired
            <= replies.len(),
    decreases replies.len(),
{
    if replies.len() > 0 {
        law_tally_counts_every_answer(pools, replies.drop_last(), now);
    }
}

/// `t` with the tag `tag`.
pub open spec fn tagged(t: TokenV, tag: Seq<char>) -> TokenV {
    if t.tags.contains(tag) {
        t
    } else {
        TokenV { tags: t.tags.push(tag), ..t }
    }
}

fn tokens_value(p: &TokenPool) -> (r: Json)
    ensures
        r@ == JsonV::Array(p@.tokens.map_values(|t: TokenV| token_json(t))),
{
    let ghost want = p@.tokens.map_values(|t: TokenV| token_json(t));
    let mut out: Vec<Json> = Vec::new();
    let n: usize = p.tokens.len();
    let mut i: usize = 0;
    while i < n
        invariant
            n == p.tokens@.len(),
            i <= n,
            want == p@.tokens.map_values(|t: TokenV| token_json(t)),
            json::models(out@) =~= want.take(i as int),
        decreases n - i,
    {
        let ghost held = out@;
        out.push(token_value(&p.tokens[i]));
        proof {
            assert(json::models(out@) =~= json::models(held).push(
                token_json(p.tokens@[i as int]@),
            ));
        }
        i += 1;
    }
    proof {
        assert(json::models(out@) =~= want);
    }
    json::array(out)
}

fn pool_from(name: &str, list: &Json, now: i64) -> (r: TokenPool)
    ensures
        r@ == pool_of((name@, list@), now),
{
    let mut p = TokenPool::new(name);
    if let Json::Array(items) = list {
        broadcast use json::lemma_array_model;

        let ghost all = json::models(items@);
        let n: usize = items.len();
        let mut i: usize = 0;
        proof {
            assert(all.take(0) =~= Seq::empty());
        }
        while i < n
            invariant
                n == items@.len(),
                i <= n,
                all == json::models(items@),
                p@.name == name@,
                p@.tokens == tokens_of(all.take(i as int), now),
            decreases n - i,
        {
            proof {
                assert(all.take(i + 1).drop_last() =~= all.take(i as int));
                assert(all.take(i + 1).last() == items@[i as int]@);
            }
            if let Some(t) = token_from_value(&items[i], now) {
                p.add(t);
            }
            i += 1;
        }
        proof {
            assert(all.take(i as int) =~= all);
        }
    }
    p
}

fn pools_from(data: &Json, now: i64) -> (r: Vec<TokenPool>)
    ensures
        pool_views(r@) == pools_of(data@, now),
{
    broadcast use json::lemma_object_model;

    let mut out: Vec<TokenPool> = Vec::new();
    if let Json::Object(fields) = data {
        let n: usize = fields.len();
        let mut k: usize = 0;
        while k < n
            invariant
                n == fields@.len(),
                k <= n,
                data@ == JsonV::Object(json::field_models(fields@)),
                pool_views(out@) =~= pools_of(data@, now).take(k as int),
            decreases n - k,
        {
            let ghost held = out@;
            let p = pool_from(fields[k].0.as_str(), &fields[k].1, now);
            out.push(p);
            proof {
                assert(pool_views(out@) =~= pool_views(held).push(p@));
                assert(json::field_models(fields@)[k as int] == (
                    fields@[k as int].0@,
                    fields@[k as int].1@,
                ));
            }
            k += 1;
        }
    }
    proof {
        assert(pool_views(out@) =~= pools_of(data@, now));
    }
    out
}

fn reset_pool(p: &mut TokenPool)
    ensures
        final(p)@ == (PoolV { name: old(p)@.name, tokens: renewed_tokens(old(p)@.tokens) }),
{
    let ghost before = p@.tokens;
    let n: usize = p.tokens.len();
    let mut i: usize = 0;
    while i < n
        invariant
            n == p.tokens@.len(),
            n == before.len(),
            i <= n,
            p@.name == old(p)@.name,
            forall|j: int| 0 <= j < i ==> #[trigger] p@.tokens[j] == renewed_tokens(before)[j],
            forall|j: int| i <= j < n ==> #[trigger] p@.tokens[j] == before[j],
            forall|j: int| 0 <= j < n ==> (#[trigger] p@.tokens[j]).token == before[j].token,
        decreases n - i,
    {
        let text = p.tokens[i].token.clone();
        let ghost now = p@.tokens;
        proof {
            assert(p@.tokens[i as int] == p.tokens@[i as int]@);
            pool::lemma_index_from(now, text@, 0);
            pool::lemma_index_from(before, text@, 0);
            pool::lemma_index_kept(now, before, text@, 0);
        }
        match p.position(text.as_str()) {
            Some(k) => {
                if k == i {
                    let ghost held = p.tokens@;
                    let t = &mut p.tokens[i];
                    t.reset();
                    proof {
                        assert(pool::token_views(p.tokens@) =~= pool::token_views(held).update(
                            i as int,
                            models::renewed(now[i as int]),
                        ));
                    }
                }
            },
            None => {},
        }
        i += 1;
    }
    proof {
        assert(p@.tokens =~= renewed_tokens(before));
    }
}

} // verus!
