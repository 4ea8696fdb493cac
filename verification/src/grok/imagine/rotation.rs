//! Which token makes the next generation.
use vstd::prelude::*;
use vstd::string::*;
use vstd::utf8::*;

use crate::outside;
use crate::text;
use crate::token::manager;
use crate::token::manager::TokenManager;
use crate::token::models::{TokenInfo, TokenV};
use crate::token::pool;
use crate::token::pool::PoolV;

verus! {

/// A token without white space around it and without `sso=`.
pub open spec fn sanitized(token: Seq<char>) -> Seq<char> {
    manager::bare_of(text::trim_of(token))
}

/// A token without white space around it and without `sso=`.
pub fn sanitize_token(token: &str) -> (r: String)
    ensures
        r@ == sanitized(token@),
{
    let trimmed = text::trim(token);
    manager::bare(trimmed.as_str())
}

/// How many hexadecimal digits of its digest stand for a token.
pub const KEY_LENGTH: usize = 12;

/// The name under which the use of a token is kept: the beginning of its digest.
pub open spec fn key_of(token: Seq<char>) -> Seq<char> {
    text::hex_bytes_of(outside::sha1_of(encode_utf8(token))).take(KEY_LENGTH as int)
}

/// The beginning of a digest, in hexadecimal digits.
pub fn digest_key(digest: &Vec<u8>) -> (r: String)
    requires
        2 * digest@.len() >= KEY_LENGTH,
    ensures
        r@ == text::hex_bytes_of(digest@).take(KEY_LENGTH as int),
{
    let full = text::hex_bytes(digest);
    proof {
        text::lemma_hex_bytes_len(digest@);
        assert(full@.subrange(0, KEY_LENGTH as int) =~= full@.take(KEY_LENGTH as int));
    }
    text::slice_text(full.as_str(), 0, KEY_LENGTH)
}

/// The name under which the use of a token is kept.
pub fn key_hash(token: &str) -> (r: String)
    ensures
        r@ == key_of(token@),
{
    let digest = outside::sha1_digest(token.as_bytes());
    digest_key(&digest)
}

/// How a token was used. Times are in milliseconds since the Unix epoch; zero
/// stands for never.
#[derive(Clone, Copy, Debug, PartialEq, Eq, Structural)]
pub struct KeyUsage {
    pub count: i32,
    pub last_used: i64,
    pub first_used: i64,
    pub failed: bool,
    pub age_verified: i32,
}

/// The use of a token that is seen for the first time at `now`.
pub open spec fn unused(now: i64) -> KeyUsage {
    KeyUsage { count: 0, last_used: 0, first_used: now, failed: false, age_verified: 0 }
}

impl KeyUsage {
    /// The use of a token that is seen for the first time at `now`.
    pub fn new(now: i64) -> (r: KeyUsage)
        ensures
            r == unused(now),
    {
        KeyUsage { count: 0, last_used: 0, first_used: now, failed: false, age_verified: 0 }
    }
}

/// How all tokens were used.
#[derive(Debug)]
pub struct RotationState {
    pub last_reset: i64,
    pub current_index: usize,
    pub usage: Vec<(String, KeyUsage)>,
}

/// The state of a [`RotationState`].
pub struct RotationV {
    pub last_reset: i64,
    pub current_index: usize,
    pub usage: Map<Seq<char>, KeyUsage>,
}

/// The place of the first entry under `key`, from `i` on.
pub open spec fn entry_from(e: Seq<(String, KeyUsage)>, key: Seq<char>, i: int) -> Option<int>
    decreases e.len() - i,
{
    if i < 0 || i >= e.len() {
        None
    } else if e[i].0@ == key {
        Some(i)
    } else {
        entry_from(e, key, i + 1)
    }
}

/// The map that a list of entries stands for.
pub open spec fn map_of(e: Seq<(String, KeyUsage)>) -> Map<Seq<char>, KeyUsage> {
    Map::new(
        |k: Seq<char>| entry_from(e, k, 0) is Some,
        |k: Seq<char>| e[entry_from(e, k, 0)->0].1,
    )
}

impl View for RotationState {
    type V = RotationV;

    open spec fn view(&self) -> RotationV {
        RotationV {
            last_reset: self.last_reset,
            current_index: self.current_index,
            usage: map_of(self.usage@),
        }
    }
}

proof fn lemma_entry_from(e: Seq<(String, KeyUsage)>, key: Seq<char>, i: int)
    requires
        0 <= i <= e.len(),
    ensures
        match entry_from(e, key, i) {
            Some(k) => i <= k < e.len() && e[k].0@ == key,
            None => forall|j: int| i <= j < e.len() ==> (#[trigger] e[j]).0@ != key,
        },
    decreases e.len() - i,
{
    if i < e.len() && e[i].0@ != key {
        lemma_entry_from(e, key, i + 1);
    }
}

/// Entries keep their places as long as their keys stay.
proof fn lemma_entry_kept(
    a: Seq<(String, KeyUsage)>,
    b: Seq<(String, KeyUsage)>,
    key: Seq<char>,
    i: int,
)
    requires
        a.len() == b.len(),
        forall|j: int| 0 <= j < a.len() ==> (#[trigger] a[j]).0@ == b[j].0@,
        0 <= i <= a.len(),
    ensures
        entry_from(a, key, i) == entry_from(b, key, i),
    decreases a.len() - i,
{
    if i < a.len() {
        assert(a[i].0@ == b[i].0@);
        lemma_entry_kept(a, b, key, i + 1);
    }
}

proof fn lemma_entry_push(
    a: Seq<(String, KeyUsage)>,
    x: (String, KeyUsage),
    key: Seq<char>,
    i: int,
)
    requires
        0 <= i <= a.len(),
    ensures
        entry_from(a.push(x), key, i) == (match entry_from(a, key, i) {
            Some(k) => Some(k),
            None => if x.0@ == key {
                Some(a.len() as int)
            } else {
                None
            },
        }),
    decreases a.len() - i,
{
    let b = a.push(x);
    if i < a.len() {
        assert(b[i] == a[i]);
        lemma_entry_push(a, x, key, i + 1);
    } else {
        assert(b[i] == x);
        assert(entry_from(b, key, i + 1) is None);
    }
}

/// `map`, with an unused entry under `key` where it has none.
pub open spec fn ensured(
    map: Map<Seq<char>, KeyUsage>,
    key: Seq<char>,
    now: i64,
) -> Map<Seq<char>, KeyUsage> {
    if map.contains_key(key) {
        map
    } else {
        map.insert(key, unused(now))
    }
}

/// `map`, with an entry for every token.
pub open spec fn ensured_all(
    map: Map<Seq<char>, KeyUsage>,
    tokens: Seq<Seq<char>>,
    now: i64,
) -> Map<Seq<char>, KeyUsage>
    decreases tokens.len(),
{
    if tokens.len() == 0 {
        map
    } else {
        ensured(ensured_all(map, tokens.drop_last(), now), key_of(tokens.last()), now)
    }
}

/// The use of a token, as far as it is known.
pub open spec fn usage_of(map: Map<Seq<char>, KeyUsage>, token: Seq<char>, now: i64) -> KeyUsage {
    if map.contains_key(key_of(token)) {
        map[key_of(token)]
    } else {
        unused(now)
    }
}

/// The use of a token after one more generation at `now`.
pub open spec fn used_again(u: KeyUsage, now: i64) -> KeyUsage {
    KeyUsage { count: (u.count + 1) as i32, last_used: now, ..u }
}

/// A day in milliseconds.
pub const RESET_INTERVAL_MS: i64 = 86_400_000;

/// Every use forgotten, and every failure.
pub open spec fn wiped(map: Map<Seq<char>, KeyUsage>) -> Map<Seq<char>, KeyUsage> {
    map.map_values(|u: KeyUsage| KeyUsage { count: 0, failed: false, ..u })
}

/// The state once the day of `now` was looked at: after a day, uses and
/// failures are forgotten.
pub open spec fn day_checked(s: RotationV, now: i64) -> RotationV {
    if s.last_reset == 0 {
        RotationV { last_reset: now, ..s }
    } else if now - s.last_reset < RESET_INTERVAL_MS {
        s
    } else {
        RotationV { last_reset: now, usage: wiped(s.usage), ..s }
    }
}

/// A token may make a generation: it has not failed and was used less often
/// than allowed.
pub open spec fn is_available(u: KeyUsage, daily_limit: i32) -> bool {
    !u.failed && u.count < daily_limit
}

/// The tokens that may make a generation, in order.
pub open spec fn available_of(
    tokens: Seq<Seq<char>>,
    map: Map<Seq<char>, KeyUsage>,
    daily_limit: i32,
    now: i64,
) -> Seq<Seq<char>>
    decreases tokens.len(),
{
    if tokens.len() == 0 {
        Seq::empty()
    } else {
        let before = available_of(tokens.drop_last(), map, daily_limit, now);
        if is_available(usage_of(map, tokens.last(), now), daily_limit) {
            before.push(tokens.last())
        } else {
            before
        }
    }
}

/// All tokens have failed.
pub open spec fn all_failed(
    tokens: Seq<Seq<char>>,
    map: Map<Seq<char>, KeyUsage>,
    now: i64,
) -> bool {
    forall|i: int| 0 <= i < tokens.len() ==> usage_of(map, #[trigger] tokens[i], now).failed
}

/// `map`, with the failures of the tokens forgotten.
pub open spec fn forgiven(
    map: Map<Seq<char>, KeyUsage>,
    tokens: Seq<Seq<char>>,
    now: i64,
) -> Map<Seq<char>, KeyUsage>
    decreases tokens.len(),
{
    if tokens.len() == 0 {
        map
    } else {
        let before = forgiven(map, tokens.drop_last(), now);
        let key = key_of(tokens.last());
        let u = usage_of(before, tokens.last(), now);
        before.insert(key, KeyUsage { failed: false, ..u })
    }
}

/// Ten minutes in milliseconds: the unit in which waiting counts.
pub const WAIT_UNIT_MS: i128 = 600_000;

/// How good it is to use a token now, in units of one uncounted use: what is
/// left of its daily uses, more so the longer it waited, up to ten units; a
/// token that was never used counts as having waited that long.
pub open spec fn score_of(u: KeyUsage, daily_limit: i32, now: i64) -> int {
    let left = if daily_limit - u.count < 0 {
        0int
    } else {
        daily_limit - u.count
    };
    let waited = now - u.last_used;
    let factor = if u.last_used == 0 || waited > 10 * WAIT_UNIT_MS {
        11 * WAIT_UNIT_MS
    } else {
        WAIT_UNIT_MS + waited
    };
    left * factor
}

/// The first of the best among the first `n` scores, where one exceeds the least.
pub open spec fn best_upto(scores: Seq<int>, n: int) -> Option<int>
    decreases n,
{
    if n <= 0 {
        None
    } else {
        match best_upto(scores, n - 1) {
            Some(b) => if scores[n - 1] > scores[b] {
                Some(n - 1)
            } else {
                Some(b)
            },
            None => if scores[n - 1] > -WAIT_UNIT_MS {
                Some(n - 1)
            } else {
                None
            },
        }
    }
}

/// The scores of the tokens.
pub open spec fn scores_of(
    tokens: Seq<Seq<char>>,
    map: Map<Seq<char>, KeyUsage>,
    daily_limit: i32,
    now: i64,
) -> Seq<int> {
    tokens.map_values(|t: Seq<char>| score_of(usage_of(map, t, now), daily_limit, now))
}

/// The best of the tokens; the first where none exceeds the least.
pub open spec fn best_token(
    tokens: Seq<Seq<char>>,
    map: Map<Seq<char>, KeyUsage>,
    daily_limit: i32,
    now: i64,
) -> Seq<char> {
    match best_upto(scores_of(tokens, map, daily_limit, now), tokens.len() as int) {
        Some(b) => tokens[b],
        None => tokens[0],
    }
}

/// The state in which the next token is looked for.
pub open spec fn prepared(s: RotationV, tokens: Seq<Seq<char>>, now: i64) -> RotationV {
    let d = day_checked(s, now);
    RotationV { usage: ensured_all(d.usage, tokens, now), ..d }
}

/// Every token is out of the running because it failed.
pub open spec fn starts_over(
    s: RotationV,
    tokens: Seq<Seq<char>>,
    daily_limit: i32,
    now: i64,
) -> bool {
    let p = prepared(s, tokens, now);
    available_of(tokens, p.usage, daily_limit, now).len() == 0 && all_failed(tokens, p.usage, now)
}

/// The token that makes the next generation.
pub open spec fn next_token(
    s: RotationV,
    tokens: Seq<Seq<char>>,
    daily_limit: i32,
    now: i64,
) -> Option<Seq<char>> {
    let p = prepared(s, tokens, now);
    let available = available_of(tokens, p.usage, daily_limit, now);
    if available.len() > 0 {
        Some(best_token(available, p.usage, daily_limit, now))
    } else if all_failed(tokens, p.usage, now) && tokens.len() > 0 {
        Some(tokens[0])
    } else {
        None
    }
}

/// The state after the next token was looked for.
pub open spec fn state_after_next(
    s: RotationV,
    tokens: Seq<Seq<char>>,
    daily_limit: i32,
    now: i64,
) -> RotationV {
    let p = prepared(s, tokens, now);
    if starts_over(s, tokens, daily_limit, now) {
        RotationV { usage: forgiven(p.usage, tokens, now), ..p }
    } else {
        p
    }
}

/// How good it is to use a token now.
pub fn score(u: KeyUsage, daily_limit: i32, now: i64) -> (r: i128)
    ensures
        r == score_of(u, daily_limit, now),
        -0x10_0000_0000_0000_0000_0000_0000 < r < 0x10_0000_0000_0000_0000_0000_0000,
{
    let left: i128 = if daily_limit as i128 - (u.count as i128) < 0 {
        0
    } else {
        daily_limit as i128 - u.count as i128
    };
    let waited: i128 = now as i128 - u.last_used as i128;
    let factor: i128 = if u.last_used == 0 || waited > 10 * WAIT_UNIT_MS {
        11 * WAIT_UNIT_MS
    } else {
        WAIT_UNIT_MS + waited
    };
    assert(-0x10_0000_0000_0000_0000_0000_0000 < left * factor < 0x10_0000_0000_0000_0000_0000_0000)
        by (nonlinear_arith)
        requires
            0 <= left <= 0x1_0000_0000,
            -0x1_0000_0000_0000_0000 <= factor <= 0x1_0000_0000_0000_0000,
    ;
    left * factor
}

/// The scores of tokens that were used like this.
pub open spec fn usage_scores(usages: Seq<KeyUsage>, daily_limit: i32, now: i64) -> Seq<int> {
    usages.map_values(|u: KeyUsage| score_of(u, daily_limit, now))
}

/// The place of the first of the best, where one exceeds the least.
pub fn best_place(usages: &Vec<KeyUsage>, daily_limit: i32, now: i64) -> (r: Option<usize>)
    ensures
        match r {
            Some(b) => b < usages@.len() && best_upto(
                usage_scores(usages@, daily_limit, now),
                usages@.len() as int,
            ) == Some(b as int),
            None => best_upto(
                usage_scores(usages@, daily_limit, now),
                usages@.len() as int,
            ) is None,
        },
{
    let ghost scores = usage_scores(usages@, daily_limit, now);
    let mut best: Option<usize> = None;
    let mut top: i128 = -WAIT_UNIT_MS;
    let n: usize = usages.len();
    let mut i: usize = 0;
    while i < n
        invariant
            n == usages@.len(),
            i <= n,
            scores == usage_scores(usages@, daily_limit, now),
            match best {
                Some(b) => b < i && best_upto(scores, i as int) == Some(b as int) && top
                    == scores[b as int],
                None => best_upto(scores, i as int) is None && top == -WAIT_UNIT_MS,
            },
        decreases n - i,
    {
        let s: i128 = score(usages[i], daily_limit, now);
        proof {
            assert(scores[i as int] == s);
        }
        if s > top {
            top = s;
            best = Some(i);
        }
        i += 1;
    }
    best
}

impl RotationState {
    /// Nothing is known of any token.
    pub fn new() -> (r: RotationState)
        ensures
            r@ == (RotationV { last_reset: 0, current_index: 0, usage: Map::empty() }),
    {
        let r = RotationState { last_reset: 0, current_index: 0, usage: Vec::new() };
        proof {
            assert(map_of(r.usage@) =~= Map::empty());
        }
        r
    }

    fn find(&self, key: &str) -> (r: Option<usize>)
        ensures
            match r {
                Some(i) => entry_from(self.usage@, key@, 0) == Some(i as int) && i
                    < self.usage@.len(),
                None => entry_from(self.usage@, key@, 0) is None,
            },
    {
        let n: usize = self.usage.len();
        let mut i: usize = 0;
        while i < n
            invariant
                n == self.usage@.len(),
                i <= n,
                entry_from(self.usage@, key@, 0) == entry_from(self.usage@, key@, i as int),
            decreases n - i,
        {
            if text::same_text(self.usage[i].0.as_str(), key) {
                return Some(i);
            }
            i += 1;
        }
        None
    }

    /// The use of a token, as far as it is known at `now`.
    pub fn get_usage(&self, token: &str, now: i64) -> (r: KeyUsage)
        ensures
            r == usage_of(self@.usage, token@, now),
    {
        let key = key_hash(token);
        match self.find(key.as_str()) {
            Some(i) => self.usage[i].1,
            None => KeyUsage::new(now),
        }
    }

    /// Sets the use of a token.
    fn put_usage(&mut self, token: &str, u: KeyUsage)
        ensures
            final(self)@ == (RotationV {
                usage: old(self)@.usage.insert(key_of(token@), u),
                ..old(self)@
            }),
    {
        let key = key_hash(token);
        let ghost before = self.usage@;
        match self.find(key.as_str()) {
            Some(i) => {
                let name = self.usage[i].0.clone();
                self.usage.set(i, (name, u));
                proof {
                    let after = self.usage@;
                    assert forall|k: Seq<char>|
                        entry_from(after, k, 0) == entry_from(before, k, 0) by {
                        lemma_entry_kept(after, before, k, 0);
                    }
                    lemma_entry_from(before, key@, 0);
                    let m = map_of(before).insert(key@, u);
                    assert forall|k: Seq<char>| #[trigger]
                        map_of(after).contains_key(k) implies map_of(after)[k] == m[k] by {
                        lemma_entry_from(before, k, 0);
                    }
                    assert(map_of(after) =~= m);
                }
            },
            None => {
                self.usage.push((key, u));
                proof {
                    let after = self.usage@;
                    let x = (key, u);
                    assert(after == before.push(x));
                    assert forall|k: Seq<char>|
                        entry_from(after, k, 0) == (match entry_from(before, k, 0) {
                            Some(j) => Some(j),
                            None => if key@ == k {
                                Some(before.len() as int)
                            } else {
                                None
                            },
                        }) by {
                        lemma_entry_push(before, x, k, 0);
                    }
                    let m = map_of(before).insert(key@, u);
                    assert forall|k: Seq<char>| #[trigger]
                        map_of(after).contains_key(k) implies map_of(after)[k] == m[k] by {
                        lemma_entry_from(before, k, 0);
                    }
                    assert(map_of(after) =~= m);
                }
            },
        }
    }

    /// Makes sure that the use of a token is kept from `now` on.
    pub fn ensure_usage(&mut self, token: &str, now: i64)
        ensures
            final(self)@ == (RotationV {
                usage: ensured(old(self)@.usage, key_of(token@), now),
                ..old(self)@
            }),
    {
        let key = key_hash(token);
        if self.find(key.as_str()).is_none() {
            self.put_usage(token, KeyUsage::new(now));
        }
    }

    /// Forgets uses and failures once a day.
    pub fn check_daily_reset(&mut self, now: i64)
        ensures
            final(self)@ == day_checked(old(self)@, now),
    {
        if self.last_reset == 0 {
            self.last_reset = now;
            return;
        }
        if (now as i128 - self.last_reset as i128) < RESET_INTERVAL_MS as i128 {
            return;
        }
        let ghost before = self.usage@;
        let n: usize = self.usage.len();
        let mut i: usize = 0;
        while i < n
            invariant
                n == self.usage@.len(),
                n == before.len(),
                i <= n,
                self.last_reset == old(self).last_reset,
                self.current_index == old(self).current_index,
                forall|j: int| 0 <= j < n ==> (#[trigger] self.usage@[j]).0@ == before[j].0@,
                forall|j: int|
                    0 <= j < i ==> (#[trigger] self.usage@[j]).1 == (KeyUsage {
                        count: 0,
                        failed: false,
                        ..before[j].1
                    }),
                forall|j: int| i <= j < n ==> #[trigger] self.usage@[j] == before[j],
            decreases n - i,
        {
            let name = self.usage[i].0.clone();
            let mut u = self.usage[i].1;
            u.count = 0;
            u.failed = false;
            self.usage.set(i, (name, u));
            i += 1;
        }
        self.last_reset = now;
        proof {
            let after = self.usage@;
            assert forall|k: Seq<char>| entry_from(after, k, 0) == entry_from(before, k, 0) by {
                lemma_entry_kept(after, before, k, 0);
            }
            let m = wiped(map_of(before));
            assert forall|k: Seq<char>| #[trigger]
                map_of(after).contains_key(k) implies map_of(after)[k] == m[k] by {
                lemma_entry_from(before, k, 0);
            }
            assert(map_of(after) =~= m);
        }
    }

    /// The tokens that may make a generation at `now`.
    pub fn get_available_tokens(&self, tokens: &Vec<String>, daily_limit: i32, now: i64) -> (r: Vec<
        String,
    >)
        ensures
            text::texts(r@) == available_of(
                text::texts(tokens@),
                self@.usage,
                daily_limit,
                now,
            ),
    {
        let ghost all = text::texts(tokens@);
        let mut out: Vec<String> = Vec::new();
        let n: usize = tokens.len();
        let mut i: usize = 0;
        proof {
            assert(all.take(0) =~= Seq::empty());
            assert(text::texts(out@) =~= Seq::empty());
        }
        while i < n
            invariant
                n == tokens@.len(),
                i <= n,
                all == text::texts(tokens@),
                text::texts(out@) == available_of(
                    all.take(i as int),
                    self@.usage,
                    daily_limit,
                    now,
                ),
            decreases n - i,
        {
            proof {
                assert(all.take(i + 1).drop_last() =~= all.take(i as int));
                assert(all.take(i + 1).last() == tokens@[i as int]@);
            }
            let u = self.get_usage(tokens[i].as_str(), now);
            if !u.failed && u.count < daily_limit {
                let ghost held = out@;
                out.push(tokens[i].clone());
                proof {
                    assert(text::texts(out@) =~= text::texts(held).push(tokens@[i as int]@));
                }
            }
            i += 1;
        }
        proof {
            assert(all.take(i as int) =~= all);
        }
        out
    }

    fn have_all_failed(&self, tokens: &Vec<String>, now: i64) -> (r: bool)
        ensures
            r == all_failed(text::texts(tokens@), self@.usage, now),
    {
        let ghost all = text::texts(tokens@);
        let n: usize = tokens.len();
        let mut i: usize = 0;
        while i < n
            invariant
                n == tokens@.len(),
                i <= n,
                all == text::texts(tokens@),
                forall|k: int|
                    0 <= k < i ==> usage_of(self@.usage, #[trigger] all[k], now).failed,
            decreases n - i,
        {
            proof {
                assert(all[i as int] == tokens@[i as int]@);
            }
            if !self.get_usage(tokens[i].as_str(), now).failed {
                return false;
            }
            i += 1;
        }
        true
    }

    fn pick_best(&self, tokens: &Vec<String>, daily_limit: i32, now: i64) -> (r: String)
        requires
            tokens@.len() > 0,
        ensures
            r@ == best_token(text::texts(tokens@), self@.usage, daily_limit, now),
    {
        let ghost all = text::texts(tokens@);
        let mut usages: Vec<KeyUsage> = Vec::new();
        let n: usize = tokens.len();
        let mut i: usize = 0;
        while i < n
            invariant
                n == tokens@.len(),
                i <= n,
                usages@.len() == i,
                all == text::texts(tokens@),
                forall|k: int|
                    0 <= k < i ==> #[trigger] usages@[k] == usage_of(self@.usage, all[k], now),
            decreases n - i,
        {
            proof {
                assert(all[i as int] == tokens@[i as int]@);
            }
            usages.push(self.get_usage(tokens[i].as_str(), now));
            i += 1;
        }
        proof {
            assert(usage_scores(usages@, daily_limit, now) =~= scores_of(
                all,
                self@.usage,
                daily_limit,
                now,
            ));
        }
        match best_place(&usages, daily_limit, now) {
            Some(b) => tokens[b].clone(),
            None => tokens[0].clone(),
        }
    }

    fn ensure_all(&mut self, tokens: &Vec<String>, now: i64)
        ensures
            final(self)@ == (RotationV {
                usage: ensured_all(old(self)@.usage, text::texts(tokens@), now),
                ..old(self)@
            }),
    {
        let ghost all = text::texts(tokens@);
        let ghost start = self@;
        let n: usize = tokens.len();
        let mut i: usize = 0;
        proof {
            assert(all.take(0) =~= Seq::empty());
        }
        while i < n
            invariant
                n == tokens@.len(),
                i <= n,
                all == text::texts(tokens@),
                self@ == (RotationV {
                    usage: ensured_all(start.usage, all.take(i as int), now),
                    ..start
                }),
            decreases n - i,
        {
            proof {
                assert(all.take(i + 1).drop_last() =~= all.take(i as int));
                assert(all.take(i + 1).last() == tokens@[i as int]@);
            }
            self.ensure_usage(tokens[i].as_str(), now);
            i += 1;
        }
        proof {
            assert(all.take(i as int) =~= all);
        }
    }

    fn forgive(&mut self, tokens: &Vec<String>, now: i64)
        ensures
            final(self)@ == (RotationV {
                usage: forgiven(old(self)@.usage, text::texts(tokens@), now),
                ..old(self)@
            }),
    {
        let ghost all = text::texts(tokens@);
        let ghost start = self@;
        let n: usize = tokens.len();
        let mut i: usize = 0;
        proof {
            assert(all.take(0) =~= Seq::empty());
        }
        while i < n
            invariant
                n == tokens@.len(),
                i <= n,
                all == text::texts(tokens@),
                self@ == (RotationV {
                    usage: forgiven(start.usage, all.take(i as int), now),
                    ..start
                }),
            decreases n - i,
        {
            proof {
                assert(all.take(i + 1).drop_last() =~= all.take(i as int));
                assert(all.take(i + 1).last() == tokens@[i as int]@);
            }
            let mut u = self.get_usage(tokens[i].as_str(), now);
            u.failed = false;
            self.put_usage(tokens[i].as_str(), u);
            i += 1;
        }
        proof {
            assert(all.take(i as int) =~= all);
        }
    }

    /// The token that makes the next generation at `now`, and whether the
    /// state is to be stored.
    pub fn get_next_sso_at(&mut self, tokens: &Vec<String>, daily_limit: i32, now: i64) -> (r: (
        Option<String>,
        bool,
    ))
        ensures
            text::text_opt(r.0) == next_token(
                old(self)@,
                text::texts(tokens@),
                daily_limit,
                now,
            ),
            r.1 == starts_over(old(self)@, text::texts(tokens@), daily_limit, now),
            final(self)@ == state_after_next(
                old(self)@,
                text::texts(tokens@),
                daily_limit,
                now,
            ),
    {
        self.check_daily_reset(now);
        self.ensure_all(tokens, now);
        let available = self.get_available_tokens(tokens, daily_limit, now);
        if available.len() == 0 {
            if self.have_all_failed(tokens, now) {
                self.forgive(tokens, now);
                if tokens.len() == 0 {
                    return (None, true);
                }
                return (Some(tokens[0].clone()), true);
            }
            return (None, false);
        }
        (Some(self.pick_best(&available, daily_limit, now)), false)
    }

    /// Takes note that a token failed, or works again.
    pub fn set_failed(&mut self, token: &str, failed: bool, now: i64)
        ensures
            final(self)@ == (RotationV {
                usage: old(self)@.usage.insert(
                    key_of(token@),
                    KeyUsage { failed, ..usage_of(old(self)@.usage, token@, now) },
                ),
                ..old(self)@
            }),
    {
        let mut u = self.get_usage(token, now);
        u.failed = failed;
        self.put_usage(token, u);
    }

    /// Takes note that a token made a generation at `now`.
    pub fn record_usage_at(&mut self, token: &str, now: i64)
        requires
            usage_of(old(self)@.usage, token@, now).count < i32::MAX,
        ensures
            final(self)@ == (RotationV {
                usage: old(self)@.usage.insert(
                    key_of(token@),
                    used_again(usage_of(old(self)@.usage, token@, now), now),
                ),
                ..old(self)@
            }),
    {
        let mut u = self.get_usage(token, now);
        u.count = u.count + 1;
        u.last_used = now;
        self.put_usage(token, u);
    }

    /// Whether the age of a token's owner is known to be verified.
    pub fn get_age_verified(&self, token: &str) -> (r: i32)
        ensures
            r == (if self@.usage.contains_key(key_of(token@)) {
                self@.usage[key_of(token@)].age_verified
            } else {
                0
            }),
    {
        self.get_usage(token, 0).age_verified
    }

    /// The token that makes the next generation now, and whether the state is
    /// to be stored.
    pub fn get_next_sso(&mut self, tokens: &Vec<String>, daily_limit: i32) -> (r: (
        Option<String>,
        bool,
    ))
        ensures
            exists|now: i64| #[trigger]
                outside::clock_time(now) && text::text_opt(r.0) == next_token(
                    old(self)@,
                    text::texts(tokens@),
                    daily_limit,
                    now,
                ) && r.1 == starts_over(old(self)@, text::texts(tokens@), daily_limit, now)
                    && final(self)@ == state_after_next(
                    old(self)@,
                    text::texts(tokens@),
                    daily_limit,
                    now,
                ),
    {
        let now = outside::now_millis();
        self.get_next_sso_at(tokens, daily_limit, now)
    }

    /// Takes note that a token failed.
    pub fn mark_failed(&mut self, token: &str)
        ensures
            exists|now: i64| #[trigger]
                outside::clock_time(now) && final(self)@ == (RotationV {
                    usage: old(self)@.usage.insert(
                        key_of(token@),
                        KeyUsage { failed: true, ..usage_of(old(self)@.usage, token@, now) },
                    ),
                    ..old(self)@
                }),
    {
        let now = outside::now_millis();
        self.set_failed(token, true, now)
    }

    /// Takes note that a token works.
    pub fn mark_success(&mut self, token: &str)
        ensures
            exists|now: i64| #[trigger]
                outside::clock_time(now) && final(self)@ == (RotationV {
                    usage: old(self)@.usage.insert(
                        key_of(token@),
                        KeyUsage { failed: false, ..usage_of(old(self)@.usage, token@, now) },
                    ),
                    ..old(self)@
                }),
    {
        let now = outside::now_millis();
        self.set_failed(token, false, now)
    }

    /// How often a token was used today.
    pub fn get_count(&self, token: &str) -> (r: i32)
        ensures
            r == usage_of(self@.usage, token@, 0).count,
    {
        self.get_usage(token, 0).count
    }

    /// Takes note that a token made a generation now.
    pub fn record_usage(&mut self, token: &str)
        requires
            usage_of(old(self)@.usage, token@, 0).count < i32::MAX,
        ensures
            exists|now: i64| #[trigger]
                outside::clock_time(now) && final(self)@ == (RotationV {
                    usage: old(self)@.usage.insert(
                        key_of(token@),
                        used_again(usage_of(old(self)@.usage, token@, now), now),
                    ),
                    ..old(self)@
                }),
    {
        let now = outside::now_millis();
        self.record_usage_at(token, now)
    }

    /// Takes note, now, of whether the age of a token's owner is verified.
    pub fn set_age_verified(&mut self, token: &str, verified: i32)
        ensures
            exists|now: i64| #[trigger]
                outside::clock_time(now) && final(self)@ == (RotationV {
                    usage: old(self)@.usage.insert(
                        key_of(token@),
                        KeyUsage {
                            age_verified: verified,
                            ..usage_of(old(self)@.usage, token@, now)
                        },
                    ),
                    ..old(self)@
                }),
    {
        let now = outside::now_millis();
        self.set_age_verified_at(token, verified, now)
    }

    /// Takes note of whether the age of a token's owner is verified.
    pub fn set_age_verified_at(&mut self, token: &str, verified: i32, now: i64)
        ensures
            final(self)@ == (RotationV {
                usage: old(self)@.usage.insert(
                    key_of(token@),
                    KeyUsage {
                        age_verified: verified,
                        ..usage_of(old(self)@.usage, token@, now)
                    },
                ),
                ..old(self)@
            }),
    {
        let mut u = self.get_usage(token, now);
        u.age_verified = verified;
        self.put_usage(token, u);
    }
}

/// Where one score exceeds the least, the token that is picked has the
/// highest score, and of those with that score it is the first.
pub proof fn law_best_token_is_picked(scores: Seq<int>, n: int)
    requires
        0 <= n <= scores.len(),
    ensures
        match best_upto(scores, n) {
            Some(b) => 0 <= b < n && scores[b] > -WAIT_UNIT_MS && (forall|i: int|
                0 <= i < n ==> #[trigger] scores[i] <= scores[b]) && (forall|i: int|
                0 <= i < b ==> #[trigger] scores[i] < scores[b]),
            None => forall|i: int| 0 <= i < n ==> #[trigger] scores[i] <= -WAIT_UNIT_MS,
        },
    decreases n,
{
    if n > 0 {
        law_best_token_is_picked(scores, n - 1);
    }
}

/// A token that may make a generation has a positive score as long as it was
/// not used in the future.
pub proof fn law_available_scores_are_positive(u: KeyUsage, daily_limit: i32, now: i64)
    requires
        is_available(u, daily_limit),
        u.last_used <= now,
    ensures
        score_of(u, daily_limit, now) > 0,
{
    let left = daily_limit - u.count;
    let waited = now - u.last_used;
    let factor = if u.last_used == 0 || waited > 10 * WAIT_UNIT_MS {
        11 * WAIT_UNIT_MS
    } else {
        WAIT_UNIT_MS + waited
    };
    assert(left * factor > 0) by (nonlinear_arith)
        requires
            left > 0,
            factor > 0,
    ;
}

proof fn lemma_available_in(
    tokens: Seq<Seq<char>>,
    map: Map<Seq<char>, KeyUsage>,
    daily_limit: i32,
    now: i64,
)
    ensures
        forall|i: int|
            0 <= i < available_of(tokens, map, daily_limit, now).len() ==> is_available(
                usage_of(map, #[trigger] available_of(tokens, map, daily_limit, now)[i], now),
                daily_limit,
            ) && tokens.contains(available_of(tokens, map, daily_limit, now)[i]),
    decreases tokens.len(),
{
    if tokens.len() > 0 {
        let rest = tokens.drop_last();
        lemma_available_in(rest, map, daily_limit, now);
        let a = available_of(tokens, map, daily_limit, now);
        let b = available_of(rest, map, daily_limit, now);
        assert forall|i: int| 0 <= i < a.len() implies is_available(
            usage_of(map, #[trigger] a[i], now),
            daily_limit,
        ) && tokens.contains(a[i]) by {
            if i < b.len() {
                assert(a[i] == b[i]);
                let k = choose|k: int| 0 <= k < rest.len() && rest[k] == b[i];
                assert(tokens[k] == a[i]);
            } else {
                assert(tokens[tokens.len() - 1] == a[i]);
            }
        }
    }
}

/// The next token is one of those that were offered. It has neither failed
/// nor been used too often today, unless all have failed.
pub proof fn law_next_token_is_usable(
    s: RotationV,
    tokens: Seq<Seq<char>>,
    daily_limit: i32,
    now: i64,
)
    ensures
        match next_token(s, tokens, daily_limit, now) {
            Some(t) => tokens.contains(t) && (starts_over(s, tokens, daily_limit, now)
                || is_available(usage_of(prepared(s, tokens, now).usage, t, now), daily_limit)),
            None => available_of(
                tokens,
                prepared(s, tokens, now).usage,
                daily_limit,
                now,
            ).len() == 0,
        },
{
    let p = prepared(s, tokens, now);
    let a = available_of(tokens, p.usage, daily_limit, now);
    lemma_available_in(tokens, p.usage, daily_limit, now);
    if a.len() > 0 {
        let scores = scores_of(a, p.usage, daily_limit, now);
        law_best_token_is_picked(scores, a.len() as int);
        match best_upto(scores, a.len() as int) {
            Some(b) => {
                assert(a[b] == best_token(a, p.usage, daily_limit, now));
            },
            None => {
                assert(a[0] == best_token(a, p.usage, daily_limit, now));
            },
        }
    } else if tokens.len() > 0 {
        assert(tokens.contains(tokens[0]));
    }
}

/// Using a token lowers its score: of two tokens that are alike, the one that
/// was used last is used less.
pub proof fn law_use_lowers_the_score(u: KeyUsage, daily_limit: i32, now: i64)
    requires
        is_available(u, daily_limit),
        u.last_used <= now,
        now > 0,
    ensures
        score_of(used_again(u, now), daily_limit, now) < score_of(u, daily_limit, now),
{
    let left = daily_limit - u.count;
    let waited = now - u.last_used;
    let factor = if u.last_used == 0 || waited > 10 * WAIT_UNIT_MS {
        11 * WAIT_UNIT_MS
    } else {
        WAIT_UNIT_MS + waited
    };
    assert((left - 1) * WAIT_UNIT_MS < left * factor) by (nonlinear_arith)
        requires
            left > 0,
            factor >= WAIT_UNIT_MS,
            WAIT_UNIT_MS > 0,
    ;
}

/// Nothing in the map was used or has failed.
spec fn is_rested(map: Map<Seq<char>, KeyUsage>) -> bool {
    forall|k: Seq<char>| #[trigger]
        map.contains_key(k) ==> map[k].count == 0 && !map[k].failed
}

proof fn lemma_rested_all(map: Map<Seq<char>, KeyUsage>, tokens: Seq<Seq<char>>, now: i64)
    requires
        is_rested(map),
    ensures
        is_rested(ensured_all(map, tokens, now)),
    decreases tokens.len(),
{
    if tokens.len() > 0 {
        lemma_rested_all(map, tokens.drop_last(), now);
    }
}

proof fn lemma_rested_available(
    tokens: Seq<Seq<char>>,
    map: Map<Seq<char>, KeyUsage>,
    daily_limit: i32,
    now: i64,
)
    requires
        is_rested(map),
        daily_limit > 0,
    ensures
        available_of(tokens, map, daily_limit, now) == tokens,
    decreases tokens.len(),
{
    if tokens.len() > 0 {
        lemma_rested_available(tokens.drop_last(), map, daily_limit, now);
        assert(tokens.drop_last().push(tokens.last()) =~= tokens);
    } else {
        assert(tokens =~= Seq::empty());
    }
}

/// A day after the last reset every token may be used again, whatever
/// happened to it before.
pub proof fn law_a_day_restores_every_token(
    s: RotationV,
    tokens: Seq<Seq<char>>,
    daily_limit: i32,
    now: i64,
)
    requires
        s.last_reset != 0,
        now - s.last_reset >= RESET_INTERVAL_MS,
        daily_limit > 0,
    ensures
        available_of(tokens, prepared(s, tokens, now).usage, daily_limit, now) == tokens,
{
    assert(is_rested(wiped(s.usage)));
    lemma_rested_all(wiped(s.usage), tokens, now);
    lemma_rested_available(tokens, prepared(s, tokens, now).usage, daily_limit, now);
}

proof fn lemma_ensured_keeps(
    map: Map<Seq<char>, KeyUsage>,
    tokens: Seq<Seq<char>>,
    now: i64,
    key: Seq<char>,
)
    requires
        map.contains_key(key),
    ensures
        ensured_all(map, tokens, now).contains_key(key),
        ensured_all(map, tokens, now)[key] == map[key],
    decreases tokens.len(),
{
    if tokens.len() > 0 {
        lemma_ensured_keeps(map, tokens.drop_last(), now, key);
    }
}

/// Within a day, a token that has failed or is used up is not the next one,
/// unless all tokens have failed.
pub proof fn law_spent_token_rests(
    s: RotationV,
    tokens: Seq<Seq<char>>,
    daily_limit: i32,
    now: i64,
    token: Seq<char>,
)
    requires
        s.usage.contains_key(key_of(token)),
        !is_available(s.usage[key_of(token)], daily_limit),
        s.last_reset != 0,
        now - s.last_reset < RESET_INTERVAL_MS,
        next_token(s, tokens, daily_limit, now) == Some(token),
    ensures
        starts_over(s, tokens, daily_limit, now),
{
    lemma_ensured_keeps(s.usage, tokens, now, key_of(token));
    law_next_token_is_usable(s, tokens, daily_limit, now);
}

/// `out`, and the bare texts of the tokens, each once.
pub open spec fn with_tokens(out: Seq<Seq<char>>, tokens: Seq<TokenV>) -> Seq<Seq<char>>
    decreases tokens.len(),
{
    if tokens.len() == 0 {
        out
    } else {
        text::with_new(with_tokens(out, tokens.drop_last()), sanitized(tokens.last().token))
    }
}

/// The bare texts of the tokens of all pools, each once.
pub open spec fn sso_list(pools: Seq<PoolV>) -> Seq<Seq<char>>
    decreases pools.len(),
{
    if pools.len() == 0 {
        Seq::empty()
    } else {
        with_tokens(sso_list(pools.drop_last()), pools.last().tokens)
    }
}

fn add_tokens(out: &mut Vec<String>, tokens: &Vec<TokenInfo>)
    ensures
        text::texts(final(out)@) == with_tokens(
            text::texts(old(out)@),
            pool::token_views(tokens@),
        ),
{
    let ghost all = pool::token_views(tokens@);
    let ghost start = text::texts(out@);
    let n: usize = tokens.len();
    let mut i: usize = 0;
    proof {
        assert(all.take(0) =~= Seq::empty());
    }
    while i < n
        invariant
            n == tokens@.len(),
            i <= n,
            all == pool::token_views(tokens@),
            text::texts(out@) == with_tokens(start, all.take(i as int)),
        decreases n - i,
    {
        proof {
            assert(all.take(i + 1).drop_last() =~= all.take(i as int));
            assert(all.take(i + 1).last() == tokens@[i as int]@);
        }
        let raw = sanitize_token(tokens[i].token.as_str());
        text::add_new(out, raw.as_str());
        i += 1;
    }
    proof {
        assert(all.take(i as int) =~= all);
    }
}

/// The tokens that may be used for generations: those of all pools, each once.
pub fn get_sso_tokens(mgr: &TokenManager) -> (r: Vec<String>)
    ensures
        text::texts(r@) == sso_list(mgr@),
{
    let mut out: Vec<String> = Vec::new();
    let n: usize = mgr.pools.len();
    let mut k: usize = 0;
    proof {
        assert(mgr@.take(0) =~= Seq::empty());
        assert(text::texts(out@) =~= Seq::empty());
    }
    while k < n
        invariant
            n == mgr.pools@.len(),
            k <= n,
            text::texts(out@) == sso_list(mgr@.take(k as int)),
        decreases n - k,
    {
        proof {
            assert(mgr@.take(k + 1).drop_last() =~= mgr@.take(k as int));
            assert(mgr@.take(k + 1).last() == mgr.pools@[k as int]@);
        }
        add_tokens(&mut out, &mgr.pools[k].tokens);
        k += 1;
    }
    proof {
        assert(mgr@.take(k as int) =~= mgr@);
    }
    out
}

} // verus!
