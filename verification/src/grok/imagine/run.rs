//! A generation from the first token to the last: which token is used, what is
//! noted of it, and when to stop.
use vstd::prelude::*;

use crate::grok::imagine::generation::{ImagineResult, ResultV};
use crate::grok::imagine::retries;
use crate::grok::imagine::retries::{Attempts, AttemptsV, Mark, MarkV};
use crate::grok::imagine::rotation;
use crate::grok::imagine::rotation::{KeyUsage, RotationState, RotationV};
use crate::outside;
use crate::text;

verus! {

/// What to do next.
#[derive(Debug)]
pub enum Action {
    /// Make an attempt with a token; first verify the age of its owner where
    /// that is not known.
    Attempt { token: String, verify_age: bool },
    /// Give the result.
    Stop(ImagineResult),
}

/// The mathematical value of an [`Action`].
pub enum ActionV {
    Attempt { token: Seq<char>, verify_age: bool },
    Stop(ResultV),
}

impl View for Action {
    type V = ActionV;

    open spec fn view(&self) -> ActionV {
        match self {
            Action::Attempt { token, verify_age } => ActionV::Attempt {
                token: token@,
                verify_age: *verify_age,
            },
            Action::Stop(r) => ActionV::Stop(r@),
        }
    }
}

/// One generation with the tokens that may be used for it.
#[derive(Debug)]
pub struct Run {
    pub tokens: Vec<String>,
    pub daily_limit: i32,
    pub attempts: Attempts,
}

/// The state of a [`Run`].
pub struct RunV {
    pub tokens: Seq<Seq<char>>,
    pub daily_limit: i32,
    pub attempts: AttemptsV,
}

impl View for Run {
    type V = RunV;

    open spec fn view(&self) -> RunV {
        RunV {
            tokens: text::texts(self.tokens@),
            daily_limit: self.daily_limit,
            attempts: self.attempts@,
        }
    }
}

/// A token is looked for: there are some, and another attempt may be made.
pub open spec fn looks_for_token(r: RunV) -> bool {
    r.tokens.len() > 0 && r.attempts.made < r.attempts.max_retries
}

/// How the rotation stands after the next token was looked for.
pub open spec fn rotation_after_next(r: RunV, s: RotationV, now: i64) -> RotationV {
    if looks_for_token(r) {
        rotation::state_after_next(s, r.tokens, r.daily_limit, now)
    } else {
        s
    }
}

/// Nobody has verified the age of the token's owner.
pub open spec fn age_unknown(s: RotationV, token: Seq<char>) -> bool {
    rotation::usage_of(s.usage, token, 0).age_verified == 0
}

/// What to do next at `now`.
pub open spec fn next_action(r: RunV, s: RotationV, now: i64) -> ActionV {
    if r.tokens.len() == 0 {
        ActionV::Stop(retries::without_token_of(r.attempts))
    } else if r.attempts.made >= r.attempts.max_retries {
        ActionV::Stop(retries::exhausted_of(r.attempts))
    } else {
        match rotation::next_token(s, r.tokens, r.daily_limit, now) {
            Some(t) => ActionV::Attempt {
                token: t,
                verify_age: age_unknown(rotation_after_next(r, s, now), t),
            },
            None => ActionV::Stop(retries::without_token_of(r.attempts)),
        }
    }
}

/// The use of a token once its age check ended.
pub open spec fn rotation_after_age(
    s: RotationV,
    token: Seq<char>,
    verified: bool,
    now: i64,
) -> RotationV {
    if verified {
        RotationV {
            usage: s.usage.insert(
                rotation::key_of(token),
                KeyUsage { age_verified: 1, ..rotation::usage_of(s.usage, token, now) },
            ),
            ..s
        }
    } else {
        s
    }
}

/// How the rotation stands once a token was marked at `now`.
pub open spec fn rotation_after_mark(
    s: RotationV,
    token: Seq<char>,
    mark: MarkV,
    now: i64,
) -> RotationV {
    let u = rotation::usage_of(s.usage, token, now);
    let key = rotation::key_of(token);
    match mark {
        MarkV::Used => RotationV {
            usage: s.usage.insert(
                key,
                rotation::used_again(KeyUsage { failed: false, ..u }, now),
            ),
            ..s
        },
        MarkV::Failed(_) => RotationV {
            usage: s.usage.insert(key, KeyUsage { failed: true, ..u }),
            ..s
        },
        MarkV::Nothing => s,
    }
}

impl Run {
    /// A generation that has not begun.
    pub fn new(
        tokens: Vec<String>,
        daily_limit: i32,
        max_retries: usize,
        max_blocked: usize,
    ) -> (r: Run)
        ensures
            r@ == (RunV {
                tokens: text::texts(tokens@),
                daily_limit,
                attempts: retries::unbegun(max_retries, max_blocked),
            }),
    {
        Run { tokens, daily_limit, attempts: Attempts::new(max_retries, max_blocked) }
    }

    /// What to do next at `now`, and whether the rotation is to be stored.
    pub fn next_at(&self, state: &mut RotationState, now: i64) -> (r: (Action, bool))
        ensures
            r.0@ == next_action(self@, old(state)@, now),
            r.1 == (looks_for_token(self@) && rotation::starts_over(
                old(state)@,
                self@.tokens,
                self@.daily_limit,
                now,
            )),
            final(state)@ == rotation_after_next(self@, old(state)@, now),
    {
        proof {
            assert(self@.tokens.len() == self.tokens@.len());
        }
        if self.tokens.len() == 0 {
            return (Action::Stop(self.attempts.without_token()), false);
        }
        if !self.attempts.may_try() {
            return (Action::Stop(self.attempts.exhausted()), false);
        }
        let (found, store) = state.get_next_sso_at(&self.tokens, self.daily_limit, now);
        match found {
            Some(token) => {
                let verify_age = state.get_age_verified(token.as_str()) == 0;
                (Action::Attempt { token, verify_age }, store)
            },
            None => (Action::Stop(self.attempts.without_token()), store),
        }
    }

    /// What to do next now, and whether the rotation is to be stored.
    pub fn next(&self, state: &mut RotationState) -> (r: (Action, bool))
        ensures
            exists|now: i64| #[trigger]
                outside::clock_time(now) && r.0@ == next_action(self@, old(state)@, now) && r.1
                    == (looks_for_token(self@) && rotation::starts_over(
                    old(state)@,
                    self@.tokens,
                    self@.daily_limit,
                    now,
                )) && final(state)@ == rotation_after_next(self@, old(state)@, now),
    {
        let now = outside::now_millis();
        self.next_at(state, now)
    }

    /// Takes note at `now` of how the age check of a token's owner ended.
    /// Says whether the rotation is to be stored.
    pub fn take_age_at(state: &mut RotationState, token: &str, verified: bool, now: i64) -> (r:
        bool)
        ensures
            r == verified,
            final(state)@ == rotation_after_age(old(state)@, token@, verified, now),
    {
        if verified {
            state.set_age_verified_at(token, 1, now);
        }
        verified
    }

    /// Takes note now of how the age check of a token's owner ended. Says
    /// whether the rotation is to be stored.
    pub fn take_age(state: &mut RotationState, token: &str, verified: bool) -> (r: bool)
        ensures
            r == verified,
            exists|now: i64| #[trigger]
                outside::clock_time(now) && final(state)@ == rotation_after_age(
                    old(state)@,
                    token@,
                    verified,
                    now,
                ),
    {
        let now = outside::now_millis();
        Run::take_age_at(state, token, verified, now)
    }

    /// Takes note at `now` of how an attempt with a token ended. Returns the
    /// result where no other attempt is made on account of it.
    pub fn take_at(
        &mut self,
        state: &mut RotationState,
        token: &str,
        result: ImagineResult,
        now: i64,
    ) -> (r: Option<ImagineResult>)
        requires
            old(self).attempts.made < usize::MAX,
            old(self).attempts.blocked < usize::MAX,
            result.success ==> rotation::usage_of(old(state)@.usage, token@, now).count < i32::MAX,
        ensures
            retries::opt_result(r) == retries::result_for(old(self)@.attempts, result@),
            final(self)@ == (RunV {
                attempts: retries::noted(old(self)@.attempts, result@),
                ..old(self)@
            }),
            final(state)@ == rotation_after_mark(
                old(state)@,
                token@,
                retries::mark_for(result@),
                now,
            ),
    {
        let verdict = self.attempts.note(result);
        match verdict.mark {
            Mark::Used => {
                state.set_failed(token, false, now);
                state.record_usage_at(token, now);
                proof {
                    assert(state@.usage =~= rotation_after_mark(
                        old(state)@,
                        token@,
                        MarkV::Used,
                        now,
                    ).usage);
                }
            },
            Mark::Failed(_) => {
                state.set_failed(token, true, now);
            },
            Mark::Nothing => {},
        }
        verdict.result
    }

    /// Takes note now of how an attempt with a token ended. Returns the result
    /// where no other attempt is made on account of it.
    pub fn take(&mut self, state: &mut RotationState, token: &str, result: ImagineResult) -> (r:
        Option<ImagineResult>)
        requires
            old(self).attempts.made < usize::MAX,
            old(self).attempts.blocked < usize::MAX,
            result.success ==> rotation::usage_of(old(state)@.usage, token@, 0).count < i32::MAX,
        ensures
            retries::opt_result(r) == retries::result_for(old(self)@.attempts, result@),
            final(self)@ == (RunV {
                attempts: retries::noted(old(self)@.attempts, result@),
                ..old(self)@
            }),
            exists|now: i64| #[trigger]
                outside::clock_time(now) && final(state)@ == rotation_after_mark(
                    old(state)@,
                    token@,
                    retries::mark_for(result@),
                    now,
                ),
    {
        let now = outside::now_millis();
        self.take_at(state, token, result, now)
    }
}

/// After an attempt that failed on account of its token, the next attempt is
/// made with another token, unless every token has failed or a day has passed.
pub proof fn law_failed_token_is_not_tried_again(
    r: RunV,
    s: RotationV,
    token: Seq<char>,
    result: ResultV,
    now: i64,
    later: i64,
)
    requires
        retries::mark_for(result) is Failed,
        s.last_reset != 0,
        later - s.last_reset < rotation::RESET_INTERVAL_MS,
    ensures
        ({
            let marked = rotation_after_mark(s, token, retries::mark_for(result), now);
            next_action(r, marked, later) matches ActionV::Attempt { token: next, .. } ==> next
                != token || rotation::starts_over(marked, r.tokens, r.daily_limit, later)
        }),
{
    let marked = rotation_after_mark(s, token, retries::mark_for(result), now);
    if rotation::next_token(marked, r.tokens, r.daily_limit, later) == Some(token) {
        rotation::law_spent_token_rests(marked, r.tokens, r.daily_limit, later, token);
    }
}

} // verus!
