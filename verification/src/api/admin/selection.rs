//! Which tokens an administrator means.
use vstd::prelude::*;
use vstd::string::*;

use crate::server::exceptions;
use crate::server::exceptions::ApiError;
use crate::text;

verus! {

/// The tokens that a request names: one by itself, then a list.
pub open spec fn named_tokens(
    token: Option<Seq<char>>,
    tokens: Option<Seq<Seq<char>>>,
) -> Seq<Seq<char>> {
    (match token {
        Some(t) => seq![t],
        None => Seq::empty(),
    }) + (match tokens {
        Some(list) => list,
        None => Seq::empty(),
    })
}

/// The texts of an optional list.
pub open spec fn opt_texts(o: Option<Vec<String>>) -> Option<Seq<Seq<char>>> {
    match o {
        Some(v) => Some(text::texts(v@)),
        None => None,
    }
}

/// The tokens without white space around them; empty ones are left out.
pub open spec fn cleaned(tokens: Seq<Seq<char>>) -> Seq<Seq<char>>
    decreases tokens.len(),
{
    if tokens.len() == 0 {
        Seq::empty()
    } else {
        let before = cleaned(tokens.drop_last());
        let t = text::trim_of(tokens.last());
        if t.len() == 0 {
            before
        } else {
            before.push(t)
        }
    }
}

/// The tokens with each run of equal ones cut down to one.
pub open spec fn squeezed(tokens: Seq<Seq<char>>) -> Seq<Seq<char>>
    decreases tokens.len(),
{
    if tokens.len() == 0 {
        Seq::empty()
    } else if tokens.len() >= 2 && tokens[tokens.len() - 2] == tokens.last() {
        squeezed(tokens.drop_last())
    } else {
        squeezed(tokens.drop_last()).push(tokens.last())
    }
}

/// The first `max` tokens.
pub open spec fn limited(tokens: Seq<Seq<char>>, max: usize) -> Seq<Seq<char>> {
    if tokens.len() > max {
        tokens.take(max as int)
    } else {
        tokens
    }
}

/// Which tokens are meant, and how many were named.
#[derive(Debug)]
pub struct Selection {
    pub tokens: Vec<String>,
    pub original_count: usize,
    pub max_tokens: usize,
    pub truncated: bool,
}

/// `s` selects from `tokens`, which are cleaned, at most `max`.
pub open spec fn selects(s: Selection, tokens: Seq<Seq<char>>, max: usize) -> bool {
    &&& text::texts(s.tokens@) == limited(squeezed(tokens), max)
    &&& s.original_count == squeezed(tokens).len()
    &&& s.max_tokens == max
    &&& s.truncated == (squeezed(tokens).len() > max)
}

/// How it is said that not all tokens are processed.
pub open spec fn warning_of(max_tokens: usize, original_count: usize) -> Seq<char> {
    "数量超出限制，仅处理前 "@ + text::decimal_of(max_tokens as nat) + " 个（共 "@ + text::decimal_of(
        original_count as nat,
    ) + " 个）"@
}

impl Selection {
    /// What is to be said where not all tokens are processed.
    pub open spec fn warning_text(&self) -> Option<Seq<char>> {
        if self.truncated {
            Some(warning_of(self.max_tokens, self.original_count))
        } else {
            None
        }
    }

    /// What is to be said where not all tokens are processed.
    pub fn warning(&self) -> (r: Option<String>)
        ensures
            text::text_opt(r) == self.warning_text(),
    {
        if self.truncated {
            let mut out = String::from_str("数量超出限制，仅处理前 ");
            out.append(text::decimal(self.max_tokens as u64).as_str());
            out.append(" 个（共 ");
            out.append(text::decimal(self.original_count as u64).as_str());
            out.append(" 个）");
            Some(out)
        } else {
            None
        }
    }
}

/// The tokens that a request names.
pub fn gather(token: &Option<String>, tokens: &Option<Vec<String>>) -> (r: Vec<String>)
    ensures
        text::texts(r@) == named_tokens(text::text_opt(*token), opt_texts(*tokens)),
{
    let mut out: Vec<String> = Vec::new();
    if let Some(t) = token {
        out.push(t.clone());
    }
    proof {
        assert(text::texts(out@) =~= named_tokens(text::text_opt(*token), None));
    }
    if let Some(list) = tokens {
        let ghost start = text::texts(out@);
        let n: usize = list.len();
        let mut i: usize = 0;
        while i < n
            invariant
                n == list@.len(),
                i <= n,
                text::texts(out@) =~= start + text::texts(list@).take(i as int),
            decreases n - i,
        {
            let ghost held = out@;
            out.push(list[i].clone());
            proof {
                assert(text::texts(out@) =~= text::texts(held).push(list@[i as int]@));
            }
            i += 1;
        }
        proof {
            assert(text::texts(list@).take(i as int) =~= text::texts(list@));
        }
    }
    proof {
        assert(text::texts(out@) =~= named_tokens(text::text_opt(*token), opt_texts(*tokens)));
    }
    out
}

/// The tokens without white space around them; empty ones are left out.
pub fn clean(tokens: &Vec<String>) -> (r: Vec<String>)
    ensures
        text::texts(r@) == cleaned(text::texts(tokens@)),
{
    let ghost all = text::texts(tokens@);
    let mut out: Vec<String> = Vec::new();
    let n: usize = tokens.len();
    let mut i: usize = 0;
    proof {
        assert(all.take(0) =~= Seq::empty());
        assert(text::texts(out@) =~= Seq::empty());
    }
    while i < n
        invariant
            n == tokens@.len(),
            i <= n,
            all == text::texts(tokens@),
            text::texts(out@) == cleaned(all.take(i as int)),
        decreases n - i,
    {
        proof {
            assert(all.take(i + 1).drop_last() =~= all.take(i as int));
            assert(all.take(i + 1).last() == tokens@[i as int]@);
        }
        let t = text::trim(tokens[i].as_str());
        if !text::is_empty(t.as_str()) {
            let ghost held = out@;
            let ghost added = t@;
            out.push(t);
            proof {
                assert(text::texts(out@) =~= text::texts(held).push(added));
            }
        }
        i += 1;
    }
    proof {
        assert(all.take(i as int) =~= all);
    }
    out
}

/// The tokens with each run of equal ones cut down to one.
pub fn squeeze(tokens: &Vec<String>) -> (r: Vec<String>)
    ensures
        text::texts(r@) == squeezed(text::texts(tokens@)),
{
    let ghost all = text::texts(tokens@);
    let mut out: Vec<String> = Vec::new();
    let n: usize = tokens.len();
    let mut i: usize = 0;
    proof {
        assert(all.take(0) =~= Seq::empty());
        assert(text::texts(out@) =~= Seq::empty());
    }
    while i < n
        invariant
            n == tokens@.len(),
            i <= n,
            all == text::texts(tokens@),
            text::texts(out@) == squeezed(all.take(i as int)),
        decreases n - i,
    {
        let ghost upto = all.take(i + 1);
        proof {
            assert(upto.drop_last() =~= all.take(i as int));
            assert(upto.last() == tokens@[i as int]@);
            if i > 0 {
                assert(upto[i - 1] == tokens@[i - 1]@);
            }
        }
        let again = i > 0 && text::same_text(tokens[i - 1].as_str(), tokens[i].as_str());
        if !again {
            let ghost held = out@;
            out.push(tokens[i].clone());
            proof {
                assert(text::texts(out@) =~= text::texts(held).push(tokens@[i as int]@));
            }
        }
        i += 1;
    }
    proof {
        assert(all.take(i as int) =~= all);
    }
    out
}

/// At most `max` of the tokens, which are cleaned.
pub fn limit(tokens: &Vec<String>, max: usize) -> (r: Selection)
    ensures
        selects(r, text::texts(tokens@), max),
{
    let mut kept = squeeze(tokens);
    let original_count: usize = kept.len();
    let truncated = original_count > max;
    if truncated {
        let ghost held = kept@;
        kept.truncate(max);
        proof {
            assert(text::texts(kept@) =~= text::texts(held).take(max as int));
        }
    }
    Selection { tokens: kept, original_count, max_tokens: max, truncated }
}

/// The tokens whose quota is to be asked for.
pub fn select_for_refresh(
    token: &Option<String>,
    tokens: &Option<Vec<String>>,
    max: usize,
) -> (r: Result<Selection, ApiError>)
    ensures
        ({
            let named = named_tokens(text::text_opt(*token), opt_texts(*tokens));
            match r {
                Ok(s) => named.len() > 0 && selects(s, cleaned(named), max),
                Err(e) => named.len() == 0 && e@ == exceptions::invalid_request_of(
                    "No tokens provided"@,
                ),
            }
        }),
{
    let named = gather(token, tokens);
    proof {
        assert(text::texts(named@).len() == named@.len());
    }
    if named.len() == 0 {
        return Err(ApiError::invalid_request("No tokens provided"));
    }
    let list = clean(&named);
    Ok(limit(&list, max))
}

/// The tokens for which adult content is to be allowed: those that are named,
/// or where none is named all.
pub fn select_for_nsfw(
    token: &Option<String>,
    tokens: &Option<Vec<String>>,
    known: &Vec<String>,
    max: usize,
) -> (r: Result<Selection, ApiError>)
    ensures
        ({
            let named = named_tokens(text::text_opt(*token), opt_texts(*tokens));
            let meant = if named.len() > 0 {
                named
            } else {
                text::texts(known@)
            };
            match r {
                Ok(s) => meant.len() > 0 && selects(s, cleaned(meant), max),
                Err(e) => meant.len() == 0 && e@ == exceptions::invalid_request_of(
                    "No tokens available"@,
                ),
            }
        }),
{
    let named = gather(token, tokens);
    proof {
        assert(text::texts(named@).len() == named@.len());
        assert(text::texts(known@).len() == known@.len());
    }
    if named.len() > 0 {
        let list = clean(&named);
        return Ok(limit(&list, max));
    }
    if known.len() == 0 {
        return Err(ApiError::invalid_request("No tokens available"));
    }
    let list = clean(known);
    Ok(limit(&list, max))
}

/// The tokens whose assets are to be deleted.
pub fn select_for_clear(tokens: &Vec<String>, max: usize) -> (r: Result<Selection, ApiError>)
    ensures
        ({
            let list = cleaned(text::texts(tokens@));
            match r {
                Ok(s) => list.len() > 0 && selects(s, list, max),
                Err(e) => list.len() == 0 && e@ == exceptions::invalid_request_of(
                    "No tokens provided"@,
                ),
            }
        }),
{
    let list = clean(tokens);
    proof {
        assert(text::texts(list@).len() == list@.len());
    }
    if list.len() == 0 {
        return Err(ApiError::invalid_request("No tokens provided"));
    }
    Ok(limit(&list, max))
}

/// The tokens whose assets are to be counted, and how they were chosen.
#[derive(Debug)]
pub struct OnlineSelection {
    pub selection: Selection,
    pub scope: String,
}

/// The tokens whose assets are to be counted: those that are named, or where
/// none is named and the scope says so all.
pub fn select_for_load(
    tokens: &Option<Vec<String>>,
    scope: &Option<String>,
    known: &Vec<String>,
    max: usize,
) -> (r: Result<OnlineSelection, ApiError>)
    ensures
        ({
            let named = named_tokens(None, opt_texts(*tokens));
            let all = text::text_opt(*scope) == Some("all"@);
            match r {
                Ok(s) => {
                    &&& named.len() > 0 || all
                    &&& s.scope@ == (if named.len() > 0 {
                        "selected"@
                    } else {
                        "all"@
                    })
                    &&& selects(
                        s.selection,
                        cleaned(
                            if named.len() > 0 {
                                named
                            } else {
                                text::texts(known@)
                            },
                        ),
                        max,
                    )
                },
                Err(e) => named.len() == 0 && !all && e@ == exceptions::invalid_request_of(
                    "No tokens provided"@,
                ),
            }
        }),
{
    let named = gather(&None, tokens);
    proof {
        assert(text::texts(named@).len() == named@.len());
    }
    if named.len() > 0 {
        let list = clean(&named);
        return Ok(
            OnlineSelection { selection: limit(&list, max), scope: String::from_str("selected") },
        );
    }
    let all = match scope {
        Some(s) => text::same_text(s.as_str(), "all"),
        None => false,
    };
    if !all {
        return Err(ApiError::invalid_request("No tokens provided"));
    }
    let list = clean(known);
    Ok(OnlineSelection { selection: limit(&list, max), scope: String::from_str("all") })
}

proof fn lemma_squeezed_last(tokens: Seq<Seq<char>>)
    ensures
        tokens.len() > 0 ==> squeezed(tokens).len() > 0 && squeezed(tokens).last()
            == tokens.last(),
        squeezed(tokens).len() <= tokens.len(),
    decreases tokens.len(),
{
    if tokens.len() > 0 {
        lemma_squeezed_last(tokens.drop_last());
    }
}

/// No token is processed twice in a row, and squeezing a list again changes nothing.
pub proof fn law_no_repeats_in_a_row(tokens: Seq<Seq<char>>)
    ensures
        forall|i: int|
            0 < i < squeezed(tokens).len() ==> squeezed(tokens)[i - 1]
                != #[trigger] squeezed(tokens)[i],
        squeezed(squeezed(tokens)) == squeezed(tokens),
    decreases tokens.len(),
{
    if tokens.len() > 0 {
        let rest = tokens.drop_last();
        law_no_repeats_in_a_row(rest);
        lemma_squeezed_last(rest);
        let s = squeezed(tokens);
        if s != squeezed(rest) {
            assert(s.drop_last() =~= squeezed(rest));
            if rest.len() > 0 {
                assert(squeezed(rest).last() == rest.last());
            }
        }
    }
}

/// At most as many tokens are processed as are allowed, and where fewer are
/// processed than were named it is said so.
pub proof fn law_limit_is_kept(s: Selection, tokens: Seq<Seq<char>>, max: usize)
    requires
        selects(s, tokens, max),
    ensures
        s.tokens@.len() <= max,
        s.tokens@.len() < s.original_count <==> s.warning_text() is Some,
{
    assert(text::texts(s.tokens@).len() == s.tokens@.len());
}

} // verus!
