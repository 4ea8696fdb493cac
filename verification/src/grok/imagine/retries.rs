//! Trying again with other tokens until a generation succeeds.
use vstd::prelude::*;
use vstd::string::*;

use crate::grok::imagine::generation;
use crate::grok::imagine::generation::{ImagineResult, ResultV};
use crate::text;

verus! {

/// The shape of an image of this size.
pub open spec fn aspect_ratio_of(size: Seq<char>) -> Seq<char> {
    if size == "1024x1024"@ || size == "512x512"@ || size == "256x256"@ {
        "1:1"@
    } else if size == "1536x1024"@ {
        "3:2"@
    } else {
        "2:3"@
    }
}

/// The shape of an image of this size; an unknown size is upright.
pub fn size_to_aspect_ratio(size: &str) -> (r: &'static str)
    ensures
        r@ == aspect_ratio_of(size@),
{
    if text::same_text(size, "1024x1024") || text::same_text(size, "512x512") || text::same_text(
        size,
        "256x256",
    ) {
        "1:1"
    } else if text::same_text(size, "1536x1024") {
        "3:2"
    } else {
        "2:3"
    }
}

/// The shape of an image where a size may be given.
pub fn aspect_ratio(size: &Option<String>) -> (r: &'static str)
    ensures
        r@ == aspect_ratio_of(
            match size {
                Some(s) => s@,
                None => "1024x1536"@,
            },
        ),
{
    match size {
        Some(s) => size_to_aspect_ratio(s.as_str()),
        None => size_to_aspect_ratio("1024x1536"),
    }
}

/// The most images that one generation makes.
pub const MAX_IMAGES: u32 = 4;

/// How many images a generation makes: as many as are asked for, or the
/// default, but at least one and at most four.
pub open spec fn target_of(n: Option<u32>, default_count: u32) -> u32 {
    let asked = match n {
        Some(k) => k,
        None => default_count,
    };
    if asked < 1 {
        1
    } else if asked > MAX_IMAGES {
        MAX_IMAGES
    } else {
        asked
    }
}

/// How many images a generation makes.
pub fn target_count(n: Option<u32>, default_count: u32) -> (r: u32)
    ensures
        r == target_of(n, default_count),
        1 <= r <= MAX_IMAGES,
{
    let asked: u32 = match n {
        Some(k) => k,
        None => default_count,
    };
    if asked < 1 {
        1
    } else if asked > MAX_IMAGES {
        MAX_IMAGES
    } else {
        asked
    }
}

/// How often a generation was tried, and how the last attempt failed.
#[derive(Debug)]
pub struct Attempts {
    pub max_retries: usize,
    pub max_blocked: usize,
    pub made: usize,
    pub blocked: usize,
    pub last_error: Option<ImagineResult>,
}

/// The state of [`Attempts`].
pub struct AttemptsV {
    pub max_retries: usize,
    pub max_blocked: usize,
    pub made: usize,
    pub blocked: usize,
    pub last_error: Option<ResultV>,
}

impl View for Attempts {
    type V = AttemptsV;

    open spec fn view(&self) -> AttemptsV {
        AttemptsV {
            max_retries: self.max_retries,
            max_blocked: self.max_blocked,
            made: self.made,
            blocked: self.blocked,
            last_error: match self.last_error {
                Some(e) => Some(e@),
                None => None,
            },
        }
    }
}

/// What to note of a token after an attempt with it.
#[derive(Debug)]
pub enum Mark {
    /// It works and was used once more.
    Used,
    /// It failed, for this reason.
    Failed(String),
    /// Nothing.
    Nothing,
}

/// The mathematical value of a [`Mark`].
pub enum MarkV {
    Used,
    Failed(Seq<char>),
    Nothing,
}

impl View for Mark {
    type V = MarkV;

    open spec fn view(&self) -> MarkV {
        match self {
            Mark::Used => MarkV::Used,
            Mark::Failed(s) => MarkV::Failed(s@),
            Mark::Nothing => MarkV::Nothing,
        }
    }
}

/// What follows from an attempt: what to note of the token, and the result
/// where no other attempt is made on account of it.
#[derive(Debug)]
pub struct Verdict {
    pub mark: Mark,
    pub result: Option<ImagineResult>,
}

/// The value of an optional result.
pub open spec fn opt_result(o: Option<ImagineResult>) -> Option<ResultV> {
    match o {
        Some(r) => Some(r@),
        None => None,
    }
}

/// No token can be used.
pub open spec fn no_token() -> ResultV {
    generation::failure("no_available_sso"@, "没有可用的 SSO"@)
}

/// A generation that was held up too often.
pub open spec fn blocked_too_often(times: usize) -> ResultV {
    generation::failure(
        "blocked"@,
        "连续 "@ + text::decimal_of(times as nat) + " 次被 blocked，请稍后重试"@,
    )
}

/// The attempt was held up half-way.
pub open spec fn is_blocked(r: ResultV) -> bool {
    !r.success && text::or_empty(r.error_code) == "blocked"@
}

/// The attempt failed for a reason that another token may not have.
pub open spec fn is_token_trouble(r: ResultV) -> bool {
    !r.success && (text::or_empty(r.error_code) == "rate_limit_exceeded"@ || text::or_empty(
        r.error_code,
    ) == "unauthorized"@)
}

/// What to note of the token after an attempt that ended with `r`.
pub open spec fn mark_for(r: ResultV) -> MarkV {
    if r.success {
        MarkV::Used
    } else if is_blocked(r) {
        MarkV::Failed("blocked - 无法生成最终图片"@)
    } else if is_token_trouble(r) {
        MarkV::Failed(text::or_empty(r.error))
    } else {
        MarkV::Nothing
    }
}

/// The result, where no other attempt is made on account of `r`.
pub open spec fn result_for(a: AttemptsV, r: ResultV) -> Option<ResultV> {
    if is_blocked(r) {
        if a.blocked + 1 >= a.max_blocked {
            Some(blocked_too_often(a.max_blocked))
        } else {
            None
        }
    } else if is_token_trouble(r) {
        None
    } else {
        Some(r)
    }
}

/// The attempts after one more that ended with `r`.
pub open spec fn noted(a: AttemptsV, r: ResultV) -> AttemptsV {
    AttemptsV {
        made: (a.made + 1) as usize,
        blocked: if is_blocked(r) {
            (a.blocked + 1) as usize
        } else {
            a.blocked
        },
        last_error: if is_token_trouble(r) {
            Some(r)
        } else {
            a.last_error
        },
        ..a
    }
}

/// No attempt was made yet. At least one is allowed.
pub open spec fn unbegun(max_retries: usize, max_blocked: usize) -> AttemptsV {
    AttemptsV {
        max_retries: if max_retries < 1 {
            1
        } else {
            max_retries
        },
        max_blocked,
        made: 0,
        blocked: 0,
        last_error: None,
    }
}

/// The result where no token can be used.
pub open spec fn without_token_of(a: AttemptsV) -> ResultV {
    match a.last_error {
        Some(e) => e,
        None => no_token(),
    }
}

/// The result where no other attempt may be made.
pub open spec fn exhausted_of(a: AttemptsV) -> ResultV {
    match a.last_error {
        Some(e) => e,
        None => generation::failure("generation_failed"@, "所有重试都失败了"@),
    }
}

impl Attempts {
    /// No attempt was made yet. At least one is allowed.
    pub fn new(max_retries: usize, max_blocked: usize) -> (r: Attempts)
        ensures
            r@ == unbegun(max_retries, max_blocked),
    {
        let max_retries: usize = if max_retries < 1 {
            1
        } else {
            max_retries
        };
        Attempts { max_retries, max_blocked, made: 0, blocked: 0, last_error: None }
    }

    /// Whether another attempt may be made.
    pub fn may_try(&self) -> (r: bool)
        ensures
            r == (self@.made < self@.max_retries),
    {
        self.made < self.max_retries
    }

    /// The result where no token can be used: how the last attempt failed, if
    /// one was made.
    pub fn without_token(&self) -> (r: ImagineResult)
        ensures
            r@ == without_token_of(self@),
    {
        match &self.last_error {
            Some(e) => e.clone(),
            None => ImagineResult::failed("no_available_sso", "没有可用的 SSO"),
        }
    }

    /// The result where no other attempt may be made.
    pub fn exhausted(&self) -> (r: ImagineResult)
        ensures
            r@ == exhausted_of(self@),
    {
        match &self.last_error {
            Some(e) => e.clone(),
            None => ImagineResult::failed("generation_failed", "所有重试都失败了"),
        }
    }

    /// Takes note of how an attempt ended.
    pub fn note(&mut self, result: ImagineResult) -> (r: Verdict)
        requires
            old(self).made < usize::MAX,
            old(self).blocked < usize::MAX,
        ensures
            final(self)@ == noted(old(self)@, result@),
            r.mark@ == mark_for(result@),
            opt_result(r.result) == result_for(old(self)@, result@),
    {
        self.made = self.made + 1;
        if result.success {
            return Verdict { mark: Mark::Used, result: Some(result) };
        }
        let code = text::opt_or_empty(&result.error_code);
        let message = text::opt_or_empty(&result.error);
        proof {
            reveal_strlit("blocked");
            reveal_strlit("rate_limit_exceeded");
            reveal_strlit("unauthorized");
            assert("blocked"@.len() == 7 && "unauthorized"@.len() == 12);
            assert("rate_limit_exceeded"@.len() == 19);
        }
        if text::same_text(code.as_str(), "blocked") {
            self.blocked = self.blocked + 1;
            let mark = Mark::Failed(String::from_str("blocked - 无法生成最终图片"));
            if self.blocked >= self.max_blocked {
                let words = text::joined3(
                    "连续 ",
                    text::decimal(self.max_blocked as u64).as_str(),
                    " 次被 blocked，请稍后重试",
                );
                return Verdict {
                    mark,
                    result: Some(ImagineResult::failed("blocked", words.as_str())),
                };
            }
            return Verdict { mark, result: None };
        }
        if text::same_text(code.as_str(), "rate_limit_exceeded") || text::same_text(
            code.as_str(),
            "unauthorized",
        ) {
            self.last_error = Some(result);
            return Verdict { mark: Mark::Failed(message), result: None };
        }
        Verdict { mark: Mark::Nothing, result: Some(result) }
    }
}

/// A success is always the result, and no failure is mistaken for one.
pub proof fn law_success_is_returned(a: AttemptsV, r: ResultV)
    ensures
        r.success ==> result_for(a, r) == Some(r) && mark_for(r) == MarkV::Used,
        result_for(a, r) is Some && result_for(a, r)->0.success ==> r.success,
        noted(a, r).last_error is Some && (a.last_error is Some ==> !a.last_error->0.success)
            ==> !noted(a, r).last_error->0.success,
{
}

/// The attempts after several more.
pub open spec fn noted_all(a: AttemptsV, results: Seq<ResultV>) -> AttemptsV
    decreases results.len(),
{
    if results.len() == 0 {
        a
    } else {
        noted(noted_all(a, results.drop_last()), results.last())
    }
}

/// As long as an attempt is made only where one may be made, no more attempts
/// are made than are allowed, and every one is counted.
pub proof fn law_attempts_are_bounded(a: AttemptsV, results: Seq<ResultV>)
    requires
        a.made <= a.max_retries,
        forall|i: int|
            0 <= i < results.len() ==> (#[trigger] noted_all(a, results.take(i))).made
                < a.max_retries,
    ensures
        a.made + results.len() <= a.max_retries,
        noted_all(a, results).made == a.made + results.len(),
        noted_all(a, results).max_retries == a.max_retries,
    decreases results.len(),
{
    if results.len() > 0 {
        let before = results.drop_last();
        assert(results.take(results.len() - 1) =~= before);
        assert forall|i: int| 0 <= i < before.len() implies (#[trigger] noted_all(
            a,
            before.take(i),
        )).made < a.max_retries by {
            assert(before.take(i) =~= results.take(i));
        }
        law_attempts_are_bounded(a, before);
    }
}

} // verus!
