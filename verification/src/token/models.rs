//! Tokens: what is known of each, and how use and failure change it.
use vstd::prelude::*;
use vstd::string::*;

use crate::outside;
use crate::text;

verus! {

/// Whether a token can be used.
#[derive(Clone, Copy, Debug, PartialEq, Eq, Structural)]
pub enum TokenStatus {
    Active,
    Disabled,
    Expired,
    Cooling,
}

/// How much a request asks of a token.
#[derive(Clone, Copy, Debug, PartialEq, Eq, Structural)]
pub enum EffortType {
    Low,
    High,
}

/// The quota that a request costs.
pub open spec fn cost_of(effort: EffortType) -> i32 {
    match effort {
        EffortType::Low => 1,
        EffortType::High => 4,
    }
}

/// The quota that a request costs.
pub fn effort_cost(effort: &EffortType) -> (r: i32)
    ensures
        r == cost_of(*effort),
{
    match *effort {
        EffortType::Low => 1,
        EffortType::High => 4,
    }
}

/// The quota of a fresh token.
pub const DEFAULT_QUOTA: i32 = 80;

/// How many refusals in a row make a token expire.
pub const FAIL_THRESHOLD: i32 = 5;

/// What is known of a token. Times are in milliseconds since the Unix epoch.
#[derive(Debug)]
pub struct TokenInfo {
    pub token: String,
    pub status: TokenStatus,
    pub quota: i32,
    pub created_at: i64,
    pub last_used_at: Option<i64>,
    pub use_count: i32,
    pub fail_count: i32,
    pub last_fail_at: Option<i64>,
    pub last_fail_reason: Option<String>,
    pub last_sync_at: Option<i64>,
    pub tags: Vec<String>,
    pub note: String,
    pub last_asset_clear_at: Option<i64>,
}

/// The mathematical value of a [`TokenInfo`].
pub struct TokenV {
    pub token: Seq<char>,
    pub status: TokenStatus,
    pub quota: i32,
    pub created_at: i64,
    pub last_used_at: Option<i64>,
    pub use_count: i32,
    pub fail_count: i32,
    pub last_fail_at: Option<i64>,
    pub last_fail_reason: Option<Seq<char>>,
    pub last_sync_at: Option<i64>,
    pub tags: Seq<Seq<char>>,
    pub note: Seq<char>,
    pub last_asset_clear_at: Option<i64>,
}

impl View for TokenInfo {
    type V = TokenV;

    open spec fn view(&self) -> TokenV {
        TokenV {
            token: self.token@,
            status: self.status,
            quota: self.quota,
            created_at: self.created_at,
            last_used_at: self.last_used_at,
            use_count: self.use_count,
            fail_count: self.fail_count,
            last_fail_at: self.last_fail_at,
            last_fail_reason: text::text_opt(self.last_fail_reason),
            last_sync_at: self.last_sync_at,
            tags: text::texts(self.tags@),
            note: self.note@,
            last_asset_clear_at: self.last_asset_clear_at,
        }
    }
}

/// A token that is seen for the first time at `now`.
pub open spec fn fresh_token(token: Seq<char>, now: i64) -> TokenV {
    TokenV {
        token,
        status: TokenStatus::Active,
        quota: DEFAULT_QUOTA,
        created_at: now,
        last_used_at: None,
        use_count: 0,
        fail_count: 0,
        last_fail_at: None,
        last_fail_reason: None,
        last_sync_at: None,
        tags: Seq::empty(),
        note: Seq::empty(),
        last_asset_clear_at: None,
    }
}

/// A token that may be handed out: active, with quota left.
pub open spec fn available(t: TokenV) -> bool {
    t.status == TokenStatus::Active && t.quota > 0
}

/// The status of a token whose quota has become `quota`: without quota it
/// cools down, with quota it recovers from cooling down or having expired.
pub open spec fn status_after(status: TokenStatus, quota: i32) -> TokenStatus {
    if quota == 0 {
        TokenStatus::Cooling
    } else if status == TokenStatus::Cooling || status == TokenStatus::Expired {
        TokenStatus::Active
    } else {
        status
    }
}

/// What a request really takes: its cost, or what is left.
pub open spec fn taken(t: TokenV, effort: EffortType) -> i32 {
    if cost_of(effort) <= t.quota {
        cost_of(effort)
    } else {
        t.quota
    }
}

/// The quota that is left after a request.
pub open spec fn quota_left(t: TokenV, effort: EffortType) -> i32 {
    if cost_of(effort) <= t.quota {
        (t.quota - cost_of(effort)) as i32
    } else {
        0
    }
}

/// `t` after a request at `now`.
pub open spec fn consumed(t: TokenV, effort: EffortType, now: i64) -> TokenV {
    TokenV {
        last_used_at: Some(now),
        use_count: (t.use_count + taken(t, effort)) as i32,
        quota: quota_left(t, effort),
        fail_count: 0,
        last_fail_reason: None,
        status: status_after(t.status, quota_left(t, effort)),
        ..t
    }
}

/// The use count can take what a request adds to it.
pub open spec fn consumable(t: TokenV, effort: EffortType) -> bool {
    i32::MIN <= t.use_count + taken(t, effort) <= i32::MAX
}

/// `quota`, or zero where it is negative.
pub open spec fn at_least_zero(quota: i32) -> i32 {
    if quota < 0 {
        0
    } else {
        quota
    }
}

/// `t` once its quota is known to be `quota`.
pub open spec fn with_quota(t: TokenV, quota: i32) -> TokenV {
    TokenV {
        quota: at_least_zero(quota),
        status: status_after(t.status, at_least_zero(quota)),
        ..t
    }
}

/// `t` as good as new.
pub open spec fn renewed(t: TokenV) -> TokenV {
    TokenV {
        quota: DEFAULT_QUOTA,
        status: TokenStatus::Active,
        fail_count: 0,
        last_fail_reason: None,
        ..t
    }
}

/// `t` after a failure at `now`. Only a refusal of the token itself counts.
pub open spec fn failed(t: TokenV, status_code: u16, reason: Seq<char>, now: i64) -> TokenV {
    if status_code != 401 {
        t
    } else {
        TokenV {
            fail_count: (t.fail_count + 1) as i32,
            last_fail_at: Some(now),
            last_fail_reason: Some(reason),
            status: if t.fail_count + 1 >= FAIL_THRESHOLD {
                TokenStatus::Expired
            } else {
                t.status
            },
            ..t
        }
    }
}

/// `t` after a success at `now`.
pub open spec fn succeeded(t: TokenV, is_usage: bool, now: i64) -> TokenV {
    TokenV {
        fail_count: 0,
        last_fail_at: None,
        last_fail_reason: None,
        use_count: if is_usage {
            (t.use_count + 1) as i32
        } else {
            t.use_count
        },
        last_used_at: if is_usage {
            Some(now)
        } else {
            t.last_used_at
        },
        status: if t.quota == 0 {
            TokenStatus::Cooling
        } else {
            TokenStatus::Active
        },
        ..t
    }
}

/// Whether the quota of `t` is to be asked for again at `now`: it cools down,
/// and was never asked for or not within the last `hours` hours.
pub open spec fn refresh_due(t: TokenV, hours: i64, now: i64) -> bool {
    t.status == TokenStatus::Cooling && (t.last_sync_at is None || now - t.last_sync_at->0 >= hours
        * 3_600_000)
}

/// The times that are compared fit in 64 bits.
pub open spec fn refresh_in_range(t: TokenV, hours: i64, now: i64) -> bool {
    t.status == TokenStatus::Cooling && t.last_sync_at is Some ==> {
        &&& i64::MIN <= hours * 3600
        &&& hours * 3600 <= i64::MAX
        &&& i64::MIN <= hours * 3_600_000
        &&& hours * 3_600_000 <= i64::MAX
        &&& i64::MIN <= now - t.last_sync_at->0 <= i64::MAX
    }
}

fn clear_status(status: TokenStatus, quota: i32) -> (r: TokenStatus)
    ensures
        r == status_after(status, quota),
{
    if quota == 0 {
        TokenStatus::Cooling
    } else if status == TokenStatus::Cooling || status == TokenStatus::Expired {
        TokenStatus::Active
    } else {
        status
    }
}

impl TokenInfo {
    /// A token that is seen for the first time now.
    pub fn new(token: String) -> (r: TokenInfo)
        ensures
            r@ == fresh_token(token@, r.created_at),
            outside::clock_time(r.created_at),
    {
        let now = outside::now_millis();
        TokenInfo::new_at(token, now)
    }

    /// A token that is seen for the first time at `now`.
    pub fn new_at(token: String, now: i64) -> (r: TokenInfo)
        ensures
            r@ == fresh_token(token@, now),
    {
        let r = TokenInfo {
            token,
            status: TokenStatus::Active,
            quota: DEFAULT_QUOTA,
            created_at: now,
            last_used_at: None,
            use_count: 0,
            fail_count: 0,
            last_fail_at: None,
            last_fail_reason: None,
            last_sync_at: None,
            tags: Vec::new(),
            note: String::new(),
            last_asset_clear_at: None,
        };
        proof {
            assert(r@.tags =~= Seq::empty());
            assert(r@.note =~= Seq::empty());
        }
        r
    }

    /// Whether the token may be handed out.
    pub fn is_available(&self) -> (r: bool)
        ensures
            r == available(self@),
    {
        self.status == TokenStatus::Active && self.quota > 0
    }

    /// Takes a request's cost from the quota, now. Returns what was really taken.
    pub fn consume(&mut self, effort: &EffortType) -> (r: i32)
        requires
            consumable(old(self)@, *effort),
        ensures
            r == taken(old(self)@, *effort),
            final(self).last_used_at is Some,
            outside::clock_time(final(self).last_used_at->0),
            final(self)@ == consumed(old(self)@, *effort, final(self).last_used_at->0),
    {
        let now = outside::now_millis();
        self.consume_at(effort, now)
    }

    /// Takes a request's cost from the quota at `now`. Returns what was really taken.
    pub fn consume_at(&mut self, effort: &EffortType, now: i64) -> (r: i32)
        requires
            consumable(old(self)@, *effort),
        ensures
            r == taken(old(self)@, *effort),
            final(self)@ == consumed(old(self)@, *effort, now),
    {
        let cost = effort_cost(effort);
        let actual: i32 = if cost <= self.quota {
            cost
        } else {
            self.quota
        };
        self.last_used_at = Some(now);
        self.use_count = self.use_count + actual;
        self.quota = self.quota - actual;
        self.fail_count = 0;
        self.last_fail_reason = None;
        self.status = clear_status(self.status, self.quota);
        actual
    }

    /// Takes note of the quota that is left.
    pub fn update_quota(&mut self, new_quota: i32)
        ensures
            final(self)@ == with_quota(old(self)@, new_quota),
    {
        self.quota = if new_quota < 0 {
            0
        } else {
            new_quota
        };
        self.status = clear_status(self.status, self.quota);
    }

    /// Makes the token as good as new.
    pub fn reset(&mut self)
        ensures
            final(self)@ == renewed(old(self)@),
    {
        self.quota = DEFAULT_QUOTA;
        self.status = TokenStatus::Active;
        self.fail_count = 0;
        self.last_fail_reason = None;
    }

    /// Takes note of a failure, now.
    pub fn record_fail(&mut self, status_code: u16, reason: &str)
        requires
            status_code == 401 ==> old(self).fail_count < i32::MAX,
        ensures
            status_code != 401 ==> final(self)@ == old(self)@,
            status_code == 401 ==> final(self).last_fail_at is Some
                && outside::clock_time(final(self).last_fail_at->0) && final(self)@ == failed(
                old(self)@,
                status_code,
                reason@,
                final(self).last_fail_at->0,
            ),
    {
        let now = outside::now_millis();
        self.record_fail_at(status_code, reason, now)
    }

    /// Takes note of a failure at `now`.
    pub fn record_fail_at(&mut self, status_code: u16, reason: &str, now: i64)
        requires
            status_code == 401 ==> old(self).fail_count < i32::MAX,
        ensures
            final(self)@ == failed(old(self)@, status_code, reason@, now),
    {
        if status_code != 401 {
            return;
        }
        self.fail_count = self.fail_count + 1;
        self.last_fail_at = Some(now);
        self.last_fail_reason = Some(String::from_str(reason));
        if self.fail_count >= FAIL_THRESHOLD {
            self.status = TokenStatus::Expired;
        }
    }

    /// Takes note of a success, now.
    pub fn record_success(&mut self, is_usage: bool)
        requires
            is_usage ==> old(self).use_count < i32::MAX,
        ensures
            is_usage ==> final(self).last_used_at is Some && outside::clock_time(
                final(self).last_used_at->0,
            ) && final(self)@ == succeeded(
                old(self)@,
                true,
                final(self).last_used_at->0,
            ),
            !is_usage ==> final(self)@ == succeeded(old(self)@, false, 0),
    {
        let now = outside::now_millis();
        self.record_success_at(is_usage, now)
    }

    /// Takes note of a success at `now`.
    pub fn record_success_at(&mut self, is_usage: bool, now: i64)
        requires
            is_usage ==> old(self).use_count < i32::MAX,
        ensures
            final(self)@ == succeeded(old(self)@, is_usage, now),
    {
        self.fail_count = 0;
        self.last_fail_at = None;
        self.last_fail_reason = None;
        if is_usage {
            self.use_count = self.use_count + 1;
            self.last_used_at = Some(now);
        }
        if self.quota == 0 {
            self.status = TokenStatus::Cooling;
        } else {
            self.status = TokenStatus::Active;
        }
    }

    /// Whether the quota is to be asked for again now.
    pub fn need_refresh(&self, interval_hours: i64) -> (r: bool)
        requires
            forall|now: i64|
                outside::clock_time(now) ==> #[trigger] refresh_in_range(
                    self@,
                    interval_hours,
                    now,
                ),
        ensures
            exists|now: i64|
                outside::clock_time(now) && r == #[trigger] refresh_due(
                    self@,
                    interval_hours,
                    now,
                ),
    {
        let now = outside::now_millis();
        assert(refresh_in_range(self@, interval_hours, now));
        self.need_refresh_at(interval_hours, now)
    }

    /// Whether the quota is to be asked for again at `now`.
    pub fn need_refresh_at(&self, interval_hours: i64, now: i64) -> (r: bool)
        requires
            refresh_in_range(self@, interval_hours, now),
        ensures
            r == refresh_due(self@, interval_hours, now),
    {
        if self.status != TokenStatus::Cooling {
            return false;
        }
        match self.last_sync_at {
            Some(last) => {
                let interval_ms: i64 = interval_hours * 3600 * 1000;
                now - last >= interval_ms
            },
            None => true,
        }
    }

    /// Takes note that the quota was asked for, now.
    pub fn mark_synced(&mut self)
        ensures
            final(self).last_sync_at is Some,
            outside::clock_time(final(self).last_sync_at->0),
            final(self)@ == (TokenV { last_sync_at: final(self).last_sync_at, ..old(self)@ }),
    {
        let now = outside::now_millis();
        self.mark_synced_at(now)
    }

    /// Takes note that the quota was asked for at `now`.
    pub fn mark_synced_at(&mut self, now: i64)
        ensures
            final(self)@ == (TokenV { last_sync_at: Some(now), ..old(self)@ }),
    {
        self.last_sync_at = Some(now);
    }
}

impl Clone for TokenInfo {
    fn clone(&self) -> (r: TokenInfo)
        ensures
            r@ == self@,
    {
        TokenInfo {
            token: self.token.clone(),
            status: self.status,
            quota: self.quota,
            created_at: self.created_at,
            last_used_at: self.last_used_at,
            use_count: self.use_count,
            fail_count: self.fail_count,
            last_fail_at: self.last_fail_at,
            last_fail_reason: text::copy_opt(&self.last_fail_reason),
            last_sync_at: self.last_sync_at,
            tags: text::copy_texts(&self.tags),
            note: self.note.clone(),
            last_asset_clear_at: self.last_asset_clear_at,
        }
    }
}

/// How the tokens of a pool are doing.
#[derive(Clone, Copy, Debug, PartialEq, Eq, Structural)]
pub struct TokenPoolStats {
    pub total: usize,
    pub active: usize,
    pub disabled: usize,
    pub expired: usize,
    pub cooling: usize,
    pub total_quota: i32,
}

impl Default for TokenPoolStats {
    fn default() -> (r: TokenPoolStats)
        ensures
            r == (TokenPoolStats {
                total: 0,
                active: 0,
                disabled: 0,
                expired: 0,
                cooling: 0,
                total_quota: 0,
            }),
    {
        TokenPoolStats { total: 0, active: 0, disabled: 0, expired: 0, cooling: 0, total_quota: 0 }
    }
}

/// A request moves quota into the use count and loses nothing on the way.
pub proof fn law_quota_is_conserved(t: TokenV, effort: EffortType, now: i64)
    requires
        t.quota >= 0,
        consumable(t, effort),
    ensures
        consumed(t, effort, now).quota >= 0,
        consumed(t, effort, now).quota + consumed(t, effort, now).use_count == t.quota
            + t.use_count,
        0 <= taken(t, effort) <= cost_of(effort),
{
}

/// `t` after the requests, each with its effort and its time.
pub open spec fn consumed_all(t: TokenV, requests: Seq<(EffortType, i64)>) -> TokenV
    decreases requests.len(),
{
    if requests.len() == 0 {
        t
    } else {
        consumed(
            consumed_all(t, requests.drop_last()),
            requests.last().0,
            requests.last().1,
        )
    }
}

/// Over any run of requests, quota and use count together stay what they
/// were, the quota never falls below zero, and the use count never overflows.
pub proof fn law_quota_is_conserved_over_requests(
    t: TokenV,
    requests: Seq<(EffortType, i64)>,
    next: EffortType,
)
    requires
        t.quota >= 0,
        t.quota + t.use_count <= i32::MAX,
    ensures
        0 <= consumed_all(t, requests).quota <= t.quota,
        consumed_all(t, requests).quota + consumed_all(t, requests).use_count == t.quota
            + t.use_count,
        consumable(consumed_all(t, requests), next),
    decreases requests.len(),
{
    if requests.len() > 0 {
        law_quota_is_conserved_over_requests(t, requests.drop_last(), requests.last().0);
        law_quota_is_conserved(
            consumed_all(t, requests.drop_last()),
            requests.last().0,
            requests.last().1,
        );
    }
}

/// Whatever is asked of a fresh token, its quota and its use count add up to
/// the quota that it started with.
pub proof fn law_fresh_quota_is_conserved(
    token: Seq<char>,
    now: i64,
    requests: Seq<(EffortType, i64)>,
)
    ensures
        ({
            let t = consumed_all(fresh_token(token, now), requests);
            &&& t.quota + t.use_count == 80
            &&& 0 <= t.quota <= 80
        }),
{
    law_quota_is_conserved_over_requests(fresh_token(token, now), requests, EffortType::Low);
}

/// After a request or an update of its quota, a token without quota cools
/// down, and one with quota neither cools down nor has expired.
pub proof fn law_cooling_iff_exhausted(t: TokenV, effort: EffortType, quota: i32, now: i64)
    ensures
        consumed(t, effort, now).quota == 0 <==> consumed(t, effort, now).status
            == TokenStatus::Cooling,
        consumed(t, effort, now).status != TokenStatus::Expired,
        with_quota(t, quota).quota == 0 <==> with_quota(t, quota).status == TokenStatus::Cooling,
        with_quota(t, quota).status != TokenStatus::Expired,
        with_quota(t, quota).quota >= 0,
{
}

/// A disabled token stays disabled as long as it has quota, whatever is taken from it.
pub proof fn law_disabled_stays(t: TokenV, effort: EffortType, now: i64)
    requires
        t.status == TokenStatus::Disabled,
        quota_left(t, effort) > 0,
    ensures
        consumed(t, effort, now).status == TokenStatus::Disabled,
        !available(consumed(t, effort, now)),
{
}

/// A token that was reset may be handed out.
pub proof fn law_reset_makes_available(t: TokenV)
    ensures
        available(renewed(t)),
        renewed(renewed(t)) == renewed(t),
{
}

/// A failure: its status code, its reason and its time.
pub struct FailureV {
    pub status_code: u16,
    pub reason: Seq<char>,
    pub at: i64,
}

/// `t` after the failures, one after the other.
pub open spec fn failed_all(t: TokenV, failures: Seq<FailureV>) -> TokenV
    decreases failures.len(),
{
    if failures.len() == 0 {
        t
    } else {
        let f = failures.last();
        failed(failed_all(t, failures.drop_last()), f.status_code, f.reason, f.at)
    }
}

/// How many of the failures are refusals of the token itself.
pub open spec fn refusals(failures: Seq<FailureV>) -> nat
    decreases failures.len(),
{
    if failures.len() == 0 {
        0
    } else {
        refusals(failures.drop_last()) + if failures.last().status_code == 401 {
            1nat
        } else {
            0
        }
    }
}

/// The latest refusal among the failures.
pub open spec fn last_refusal(failures: Seq<FailureV>) -> Option<FailureV>
    decreases failures.len(),
{
    if failures.len() == 0 {
        None
    } else if failures.last().status_code == 401 {
        Some(failures.last())
    } else {
        last_refusal(failures.drop_last())
    }
}

/// Over any run of failures, as far as the counter reaches: a failure that is
/// no refusal changes nothing; every refusal is counted; the time and the
/// reason of the latest one are kept; the token has expired once the count is
/// at the threshold; and nothing else changes.
pub proof fn law_refusals_are_counted(t: TokenV, failures: Seq<FailureV>)
    requires
        t.fail_count + refusals(failures) <= i32::MAX,
    ensures
        forall|code: u16, reason: Seq<char>, now: i64|
            code != 401 ==> #[trigger] failed(t, code, reason, now) == t,
        refusals(failures) == 0 <==> last_refusal(failures) is None,
        failed_all(t, failures) == (match last_refusal(failures) {
            Some(f) => TokenV {
                fail_count: (t.fail_count + refusals(failures)) as i32,
                last_fail_at: Some(f.at),
                last_fail_reason: Some(f.reason),
                status: if t.fail_count + refusals(failures) >= FAIL_THRESHOLD {
                    TokenStatus::Expired
                } else {
                    t.status
                },
                ..t
            },
            None => t,
        }),
    decreases failures.len(),
{
    if failures.len() > 0 {
        law_refusals_are_counted(t, failures.drop_last());
    }
}

/// A fresh token that only ever fails: its count is the number of refusals, it
/// has expired exactly from the fifth refusal on and is active before, it
/// keeps the reason of the latest refusal, and its quota and its use stay.
pub proof fn law_fifth_refusal_expires(token: Seq<char>, now: i64, failures: Seq<FailureV>)
    requires
        refusals(failures) <= i32::MAX,
    ensures
        ({
            let t = failed_all(fresh_token(token, now), failures);
            &&& t.fail_count == refusals(failures)
            &&& t.status == (if refusals(failures) >= 5 {
                TokenStatus::Expired
            } else {
                TokenStatus::Active
            })
            &&& t.last_fail_reason == (match last_refusal(failures) {
                Some(f) => Some(f.reason),
                None => None,
            })
            &&& t.last_fail_at == (match last_refusal(failures) {
                Some(f) => Some(f.at),
                None => None,
            })
            &&& t.quota == DEFAULT_QUOTA
            &&& t.use_count == 0
            &&& t.last_used_at is None
        }),
{
    law_refusals_are_counted(fresh_token(token, now), failures);
}

/// A success clears the failures: after it, a token has expired exactly from
/// the fifth refusal on.
pub proof fn law_success_clears_failures(
    t: TokenV,
    is_usage: bool,
    now: i64,
    failures: Seq<FailureV>,
)
    requires
        refusals(failures) <= i32::MAX,
    ensures
        succeeded(t, is_usage, now).fail_count == 0,
        succeeded(t, is_usage, now).last_fail_at is None,
        succeeded(t, is_usage, now).last_fail_reason is None,
        failed_all(succeeded(t, is_usage, now), failures).status == TokenStatus::Expired
            <==> refusals(failures) >= 5,
{
    law_refusals_are_counted(succeeded(t, is_usage, now), failures);
}

} // verus!
