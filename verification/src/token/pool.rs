//! A pool of tokens.
use vstd::prelude::*;
use vstd::string::*;

use crate::outside;
use crate::text;
use crate::token::models;
use crate::token::models::{TokenInfo, TokenPoolStats, TokenStatus, TokenV};

verus! {

/// The values of a list of tokens.
pub open spec fn token_views(v: Seq<TokenInfo>) -> Seq<TokenV> {
    v.map_values(|t: TokenInfo| t@)
}

/// A named list of tokens.
#[derive(Debug)]
pub struct TokenPool {
    pub name: String,
    pub tokens: Vec<TokenInfo>,
}

/// The mathematical value of a [`TokenPool`].
pub struct PoolV {
    pub name: Seq<char>,
    pub tokens: Seq<TokenV>,
}

impl View for TokenPool {
    type V = PoolV;

    open spec fn view(&self) -> PoolV {
        PoolV { name: self.name@, tokens: token_views(self.tokens@) }
    }
}

/// The first token with the text `token`, from `i` on.
pub open spec fn index_from(tokens: Seq<TokenV>, token: Seq<char>, i: int) -> Option<int>
    decreases tokens.len() - i,
{
    if i < 0 || i >= tokens.len() {
        None
    } else if tokens[i].token == token {
        Some(i)
    } else {
        index_from(tokens, token, i + 1)
    }
}

/// The first token with the text `token`.
pub open spec fn index_of(tokens: Seq<TokenV>, token: Seq<char>) -> Option<int> {
    index_from(tokens, token, 0)
}

/// What the first token with a text is.
pub proof fn lemma_index_from(tokens: Seq<TokenV>, token: Seq<char>, i: int)
    requires
        0 <= i <= tokens.len(),
    ensures
        match index_from(tokens, token, i) {
            Some(k) => i <= k < tokens.len() && tokens[k].token == token && forall|j: int|
                i <= j < k ==> (#[trigger] tokens[j]).token != token,
            None => forall|j: int| i <= j < tokens.len() ==> (#[trigger] tokens[j]).token != token,
        },
    decreases tokens.len() - i,
{
    if i < tokens.len() && tokens[i].token != token {
        lemma_index_from(tokens, token, i + 1);
    }
}

/// The first token with a text stands where it stood as long as the texts stay.
pub proof fn lemma_index_kept(a: Seq<TokenV>, b: Seq<TokenV>, token: Seq<char>, i: int)
    requires
        a.len() == b.len(),
        forall|j: int| 0 <= j < a.len() ==> (#[trigger] a[j]).token == b[j].token,
        0 <= i <= a.len(),
    ensures
        index_from(a, token, i) == index_from(b, token, i),
    decreases a.len() - i,
{
    if i < a.len() {
        assert(a[i].token == b[i].token);
        lemma_index_kept(a, b, token, i + 1);
    }
}

/// The tokens whose text is not `token`.
pub open spec fn without(tokens: Seq<TokenV>, token: Seq<char>) -> Seq<TokenV>
    decreases tokens.len(),
{
    if tokens.len() == 0 {
        Seq::empty()
    } else if tokens.last().token == token {
        without(tokens.drop_last(), token)
    } else {
        without(tokens.drop_last(), token).push(tokens.last())
    }
}

/// The token at `k` is one of those to hand out: no available token has more quota.
pub open spec fn is_best(tokens: Seq<TokenV>, k: int) -> bool {
    &&& 0 <= k < tokens.len()
    &&& models::available(tokens[k])
    &&& forall|j: int|
        0 <= j < tokens.len() && models::available(#[trigger] tokens[j]) ==> tokens[j].quota
            <= tokens[k].quota
}

/// How many tokens have the status `status`.
pub open spec fn count_status(tokens: Seq<TokenV>, status: TokenStatus) -> nat
    decreases tokens.len(),
{
    if tokens.len() == 0 {
        0
    } else {
        count_status(tokens.drop_last(), status) + if tokens.last().status == status {
            1nat
        } else {
            0
        }
    }
}

/// The quotas of the tokens added up.
pub open spec fn quota_sum(tokens: Seq<TokenV>) -> int
    decreases tokens.len(),
{
    if tokens.len() == 0 {
        0
    } else {
        quota_sum(tokens.drop_last()) + tokens.last().quota
    }
}

/// The quotas can be added up, one after the other, within 32 bits.
pub open spec fn sums_in_range(tokens: Seq<TokenV>) -> bool {
    forall|n: int|
        0 <= n <= tokens.len() ==> i32::MIN <= quota_sum(#[trigger] tokens.take(n)) <= i32::MAX
}

/// How the tokens are doing.
pub open spec fn stats_of(tokens: Seq<TokenV>) -> TokenPoolStats {
    TokenPoolStats {
        total: tokens.len() as usize,
        active: count_status(tokens, TokenStatus::Active) as usize,
        disabled: count_status(tokens, TokenStatus::Disabled) as usize,
        expired: count_status(tokens, TokenStatus::Expired) as usize,
        cooling: count_status(tokens, TokenStatus::Cooling) as usize,
        total_quota: quota_sum(tokens) as i32,
    }
}

impl TokenPool {
    /// An empty pool.
    pub fn new(name: &str) -> (r: TokenPool)
        ensures
            r@ == (PoolV { name: name@, tokens: Seq::empty() }),
    {
        let r = TokenPool { name: String::from_str(name), tokens: Vec::new() };
        proof {
            assert(r@.tokens =~= Seq::empty());
        }
        r
    }

    /// Adds a token at the end.
    pub fn add(&mut self, token: TokenInfo)
        ensures
            final(self)@ == (PoolV {
                name: old(self)@.name,
                tokens: old(self)@.tokens.push(token@),
            }),
    {
        let ghost held = self.tokens@;
        self.tokens.push(token);
        proof {
            assert(token_views(self.tokens@) =~= token_views(held).push(token@));
        }
    }

    /// Removes every token with the text `token`. Says whether there was one.
    pub fn remove(&mut self, token: &str) -> (r: bool)
        ensures
            final(self)@ == (PoolV {
                name: old(self)@.name,
                tokens: without(old(self)@.tokens, token@),
            }),
            r == (index_of(old(self)@.tokens, token@) is Some),
    {
        let ghost all = token_views(self.tokens@);
        let mut kept: Vec<TokenInfo> = Vec::new();
        let mut found = false;
        let n: usize = self.tokens.len();
        let mut i: usize = 0;
        proof {
            assert(all.take(0) =~= Seq::empty());
            assert(token_views(kept@) =~= Seq::empty());
            lemma_index_from(all, token@, 0);
        }
        while i < n
            invariant
                n == self.tokens@.len(),
                i <= n,
                all == token_views(self.tokens@),
                self.name == old(self).name,
                token_views(kept@) == without(all.take(i as int), token@),
                found == exists|k: int| 0 <= k < i && (#[trigger] all[k]).token == token@,
            decreases n - i,
        {
            let ghost before = found;
            proof {
                assert(all.take(i + 1).drop_last() =~= all.take(i as int));
                assert(all.take(i + 1).last() == self.tokens@[i as int]@);
                assert(all[i as int] == self.tokens@[i as int]@);
            }
            if text::same_text(self.tokens[i].token.as_str(), token) {
                found = true;
            } else {
                let ghost held = kept@;
                kept.push(self.tokens[i].clone());
                proof {
                    assert(token_views(kept@) =~= token_views(held).push(self.tokens@[i as int]@));
                    if before {
                        let k = choose|k: int| 0 <= k < i && (#[trigger] all[k]).token == token@;
                        assert(0 <= k < i + 1 && all[k].token == token@);
                    }
                }
            }
            i += 1;
        }
        proof {
            assert(all.take(i as int) =~= all);
        }
        self.tokens = kept;
        found
    }

    /// The position of the first token with the text `token`.
    pub fn position(&self, token: &str) -> (r: Option<usize>)
        ensures
            match r {
                Some(i) => index_of(self@.tokens, token@) == Some(i as int) && i
                    < self.tokens@.len(),
                None => index_of(self@.tokens, token@) is None,
            },
    {
        let ghost all = self@.tokens;
        let n: usize = self.tokens.len();
        let mut i: usize = 0;
        while i < n
            invariant
                n == self.tokens@.len(),
                i <= n,
                all == token_views(self.tokens@),
                index_of(all, token@) == index_from(all, token@, i as int),
            decreases n - i,
        {
            proof {
                assert(all[i as int] == self.tokens@[i as int]@);
            }
            if text::same_text(self.tokens[i].token.as_str(), token) {
                return Some(i);
            }
            i += 1;
        }
        None
    }

    /// The first token with the text `token`.
    pub fn get(&self, token: &str) -> (r: Option<TokenInfo>)
        ensures
            match r {
                Some(t) => index_of(self@.tokens, token@) is Some && t@
                    == self@.tokens[index_of(self@.tokens, token@)->0],
                None => index_of(self@.tokens, token@) is None,
            },
    {
        match self.position(token) {
            Some(i) => Some(self.tokens[i].clone()),
            None => None,
        }
    }

    /// The first token with the text `token`, to be changed in place.
    pub fn get_mut(&mut self, token: &str) -> (r: Option<&mut TokenInfo>)
        ensures
            match r {
                Some(t) => {
                    let k = index_of(old(self)@.tokens, token@);
                    &&& k is Some
                    &&& t@ == old(self)@.tokens[k->0]
                    &&& final(self)@ == (PoolV {
                        name: old(self)@.name,
                        tokens: old(self)@.tokens.update(k->0, final(t)@),
                    })
                },
                None => index_of(old(self)@.tokens, token@) is None && *final(self) == *old(self),
            },
    {
        match self.position(token) {
            Some(i) => {
                proof {
                    lemma_index_from(self@.tokens, token@, 0);
                }
                let ghost held = self.tokens@;
                let r = &mut self.tokens[i];
                proof {
                    assert(token_views(held.update(i as int, *final(r))) =~= token_views(
                        held,
                    ).update(i as int, final(r)@));
                }
                Some(r)
            },
            None => None,
        }
    }

    /// All tokens.
    pub fn list(&self) -> (r: Vec<TokenInfo>)
        ensures
            token_views(r@) == self@.tokens,
    {
        let mut out: Vec<TokenInfo> = Vec::new();
        let n: usize = self.tokens.len();
        let mut i: usize = 0;
        while i < n
            invariant
                n == self.tokens@.len(),
                i <= n,
                token_views(out@) =~= token_views(self.tokens@).take(i as int),
            decreases n - i,
        {
            let ghost held = out@;
            out.push(self.tokens[i].clone());
            proof {
                assert(token_views(out@) =~= token_views(held).push(self.tokens@[i as int]@));
            }
            i += 1;
        }
        proof {
            assert(token_views(out@) =~= token_views(self.tokens@));
        }
        out
    }

    /// The positions of the tokens to hand out, in order: those that are
    /// available and have the most quota.
    pub fn best(&self) -> (r: Vec<usize>)
        ensures
            forall|a: int| 0 <= a < r@.len() ==> is_best(self@.tokens, #[trigger] r@[a] as int),
            forall|k: int| #[trigger] is_best(self@.tokens, k) ==> r@.contains(k as usize),
            forall|a: int, b: int| 0 <= a < b < r@.len() ==> r@[a] < r@[b],
            r@.len() == 0 <==> forall|k: int|
                0 <= k < self@.tokens.len() ==> !models::available(#[trigger] self@.tokens[k]),
    {
        let ghost all = self@.tokens;
        let mut out: Vec<usize> = Vec::new();
        let mut top: i32 = 0;
        let n: usize = self.tokens.len();
        let mut i: usize = 0;
        while i < n
            invariant
                n == self.tokens@.len(),
                i <= n,
                all == token_views(self.tokens@),
                top >= 0,
                top == 0 <==> out@.len() == 0,
                forall|j: int|
                    0 <= j < i && models::available(#[trigger] all[j]) ==> all[j].quota <= top,
                forall|a: int|
                    0 <= a < out@.len() ==> (#[trigger] out@[a]) < i && models::available(
                        all[out@[a] as int],
                    ) && all[out@[a] as int].quota == top,
                forall|j: int|
                    0 <= j < i && models::available(#[trigger] all[j]) && all[j].quota == top
                        ==> out@.contains(j as usize),
                forall|a: int, b: int| 0 <= a < b < out@.len() ==> out@[a] < out@[b],
            decreases n - i,
        {
            let t = &self.tokens[i];
            proof {
                assert(all[i as int] == t@);
            }
            if t.is_available() {
                if t.quota > top {
                    top = t.quota;
                    out = Vec::new();
                    out.push(i);
                    proof {
                        assert(out@[0] == i);
                    }
                } else if t.quota == top {
                    let ghost held = out@;
                    out.push(i);
                    proof {
                        assert forall|j: int|
                            0 <= j < i + 1 && models::available(#[trigger] all[j]) && all[j].quota
                                == top implies out@.contains(j as usize) by {
                            if j < i {
                                let a = choose|a: int| 0 <= a < held.len() && held[a] == j;
                                assert(out@[a] == j);
                            } else {
                                assert(out@[held.len() as int] == i);
                            }
                        }
                    }
                }
            }
            i += 1;
        }
        proof {
            assert forall|k: int| #[trigger] is_best(all, k) implies out@.contains(k as usize) by {
                if out@.len() > 0 {
                    assert(all[out@[0] as int].quota == top);
                } else {
                    assert(all[k].quota <= 0);
                }
            }
            assert forall|a: int| 0 <= a < out@.len() implies is_best(
                all,
                #[trigger] out@[a] as int,
            ) by {
                assert(all[out@[a] as int].quota == top);
            }
            if out@.len() == 0 {
                assert forall|k: int| 0 <= k < all.len() implies !models::available(
                    #[trigger] all[k],
                ) by {
                    if models::available(all[k]) {
                        assert(all[k].quota <= top);
                    }
                }
            } else {
                assert(models::available(all[out@[0] as int]));
            }
        }
        out
    }

    /// One of the tokens to hand out, whichever chance decides.
    pub fn select(&self) -> (r: Option<TokenInfo>)
        ensures
            match r {
                Some(t) => exists|k: int| #[trigger]
                    is_best(self@.tokens, k) && t@ == self@.tokens[k],
                None => forall|k: int|
                    0 <= k < self@.tokens.len() ==> !models::available(#[trigger] self@.tokens[k]),
            },
    {
        let best = self.best();
        match outside::pick_one(&best) {
            Some(i) => {
                proof {
                    let a = choose|a: int| 0 <= a < best@.len() && best@[a] == i;
                    assert(is_best(self@.tokens, best@[a] as int));
                }
                Some(self.tokens[i].clone())
            },
            None => None,
        }
    }

    /// How many tokens there are.
    pub fn count(&self) -> (r: usize)
        ensures
            r == self@.tokens.len(),
    {
        self.tokens.len()
    }

    /// How the tokens are doing.
    pub fn stats(&self) -> (r: TokenPoolStats)
        requires
            sums_in_range(self@.tokens),
        ensures
            r == stats_of(self@.tokens),
            r.active + r.disabled + r.expired + r.cooling == r.total,
    {
        let ghost all = self@.tokens;
        let mut stats = TokenPoolStats::default();
        let n: usize = self.tokens.len();
        stats.total = n;
        let mut i: usize = 0;
        while i < n
            invariant
                n == self.tokens@.len(),
                i <= n,
                all == token_views(self.tokens@),
                sums_in_range(all),
                stats.total == n,
                stats.active == count_status(all.take(i as int), TokenStatus::Active),
                stats.disabled == count_status(all.take(i as int), TokenStatus::Disabled),
                stats.expired == count_status(all.take(i as int), TokenStatus::Expired),
                stats.cooling == count_status(all.take(i as int), TokenStatus::Cooling),
                stats.active + stats.disabled + stats.expired + stats.cooling == i,
                stats.total_quota == quota_sum(all.take(i as int)),
            decreases n - i,
        {
            let t = &self.tokens[i];
            proof {
                assert(all.take(i + 1).drop_last() =~= all.take(i as int));
                assert(all.take(i + 1).last() == t@);
                assert(i32::MIN <= quota_sum(all.take(i + 1)) <= i32::MAX);
            }
            stats.total_quota = stats.total_quota + t.quota;
            match t.status {
                TokenStatus::Active => {
                    stats.active = stats.active + 1;
                },
                TokenStatus::Disabled => {
                    stats.disabled = stats.disabled + 1;
                },
                TokenStatus::Expired => {
                    stats.expired = stats.expired + 1;
                },
                TokenStatus::Cooling => {
                    stats.cooling = stats.cooling + 1;
                },
            }
            i += 1;
        }
        proof {
            assert(all.take(i as int) =~= all);
        }
        stats
    }
}

impl Clone for TokenPool {
    fn clone(&self) -> (r: TokenPool)
        ensures
            r@ == self@,
    {
        TokenPool { name: self.name.clone(), tokens: self.list() }
    }
}

impl Default for TokenPool {
    fn default() -> (r: TokenPool)
        ensures
            r@ == (PoolV { name: Seq::empty(), tokens: Seq::empty() }),
    {
        let r = TokenPool { name: String::new(), tokens: Vec::new() };
        proof {
            assert(r@.tokens =~= Seq::empty());
            assert(r@.name =~= Seq::empty());
        }
        r
    }
}

/// Every token has one of the four statuses.
pub proof fn law_statuses_add_up(tokens: Seq<TokenV>)
    ensures
        count_status(tokens, TokenStatus::Active) + count_status(tokens, TokenStatus::Disabled)
            + count_status(tokens, TokenStatus::Expired) + count_status(
            tokens,
            TokenStatus::Cooling,
        ) == tokens.len(),
    decreases tokens.len(),
{
    if tokens.len() > 0 {
        law_statuses_add_up(tokens.drop_last());
    }
}

/// A token that was added is found; once removed it is not, and the others stay.
pub proof fn law_add_then_remove(tokens: Seq<TokenV>, t: TokenV)
    ensures
        index_of(tokens.push(t), t.token) is Some,
        index_of(without(tokens, t.token), t.token) is None,
        without(tokens.push(t), t.token) == without(tokens, t.token),
        index_of(tokens, t.token) is None ==> without(tokens, t.token) == tokens,
    decreases tokens.len(),
{
    let more = tokens.push(t);
    lemma_index_from(more, t.token, 0);
    assert(more[tokens.len() as int].token == t.token);
    assert(more.drop_last() =~= tokens);
    lemma_without(tokens, t.token);
    lemma_index_from(without(tokens, t.token), t.token, 0);
    lemma_index_from(tokens, t.token, 0);
}

proof fn lemma_without(tokens: Seq<TokenV>, token: Seq<char>)
    ensures
        forall|i: int|
            0 <= i < without(tokens, token).len() ==> (#[trigger] without(tokens, token)[i]).token
                != token,
        (forall|i: int| 0 <= i < tokens.len() ==> (#[trigger] tokens[i]).token != token)
            ==> without(tokens, token) == tokens,
    decreases tokens.len(),
{
    if tokens.len() > 0 {
        let rest = tokens.drop_last();
        lemma_without(rest, token);
        if forall|i: int| 0 <= i < tokens.len() ==> (#[trigger] tokens[i]).token != token {
            assert forall|i: int| 0 <= i < rest.len() implies (#[trigger] rest[i]).token
                != token by {
                assert(rest[i] == tokens[i]);
            }
            assert(tokens[tokens.len() - 1].token != token);
            assert(rest.push(tokens.last()) =~= tokens);
        }
    }
}

} // verus!
