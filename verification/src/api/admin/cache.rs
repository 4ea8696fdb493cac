//! Cached and uploaded files as they are shown to an administrator.
use vstd::prelude::*;
use vstd::string::*;

use crate::api::admin::answers;
use crate::api::admin::selection;
use crate::api::admin::selection::Selection;
use crate::json;
use crate::json::{Fields, Json, JsonV};
use crate::server::batch_tasks;
use crate::server::exceptions;
use crate::server::exceptions::ApiError;
use crate::text;

verus! {

/// The tokens that a query names, between commas.
pub open spec fn query_tokens_of(tokens: Option<Seq<char>>) -> Seq<Seq<char>> {
    match tokens {
        Some(s) => selection::cleaned(text::pieces(s, text::is_char(','))),
        None => Seq::empty(),
    }
}

/// The tokens that a query names, between commas.
pub fn query_tokens(tokens: &Option<String>) -> (r: Vec<String>)
    ensures
        text::texts(r@) == query_tokens_of(text::text_opt(*tokens)),
{
    match tokens {
        Some(s) => {
            let parts = text::split_char(s.as_str(), ',');
            selection::clean(&parts)
        },
        None => {
            let none: Vec<String> = Vec::new();
            proof {
                assert(text::texts(none@) =~= Seq::empty());
            }
            none
        },
    }
}

/// Whose uploaded files are counted.
#[derive(Debug)]
pub enum OnlineScope {
    /// Those of the tokens that are named.
    Selected(Selection),
    /// Those of all tokens.
    All(Selection),
    /// Those of one token.
    One(String),
    /// Nobody's.
    NotLoaded,
}

/// `s` selects at most `max` of the tokens as they stand.
pub open spec fn takes(s: Selection, tokens: Seq<Seq<char>>, max: usize) -> bool {
    &&& text::texts(s.tokens@) == selection::limited(tokens, max)
    &&& s.original_count == tokens.len()
    &&& s.max_tokens == max
    &&& s.truncated == (tokens.len() > max)
}

fn take_first(tokens: &Vec<String>, max: usize) -> (r: Selection)
    ensures
        takes(r, text::texts(tokens@), max),
{
    let mut kept = text::copy_texts(tokens);
    let original_count: usize = tokens.len();
    proof {
        assert(text::texts(kept@).len() == kept@.len());
        assert(text::texts(tokens@).len() == tokens@.len());
    }
    let truncated = original_count > max;
    if truncated {
        let ghost held = kept@;
        kept.truncate(max);
        proof {
            assert(text::texts(kept@) =~= text::texts(held).take(max as int));
        }
    }
    Selection { tokens: kept, original_count, max_tokens: max, truncated }
}

/// Whose uploaded files are counted for a query: tokens that are named in a
/// list come first, then the scope, then a token that is named by itself.
pub fn choose_scope(
    token: &Option<String>,
    tokens: &Option<String>,
    scope: &Option<String>,
    known: &Vec<String>,
    max: usize,
) -> (r: OnlineScope)
    ensures
        ({
            let named = query_tokens_of(text::text_opt(*tokens));
            let all = text::text_opt(*scope) == Some("all"@);
            match r {
                OnlineScope::Selected(s) => named.len() > 0 && selection::selects(s, named, max),
                OnlineScope::All(s) => named.len() == 0 && all && takes(
                    s,
                    text::texts(known@),
                    max,
                ),
                OnlineScope::One(t) => named.len() == 0 && !all && text::text_opt(*token) == Some(
                    t@,
                ),
                OnlineScope::NotLoaded => named.len() == 0 && !all && token is None,
            }
        }),
{
    let named = query_tokens(tokens);
    proof {
        assert(text::texts(named@).len() == named@.len());
    }
    if named.len() > 0 {
        return OnlineScope::Selected(selection::limit(&named, max));
    }
    if let Some(s) = scope {
        if text::same_text(s.as_str(), "all") {
            return OnlineScope::All(take_first(known, max));
        }
    }
    match token {
        Some(t) => OnlineScope::One(t.clone()),
        None => OnlineScope::NotLoaded,
    }
}

/// How many files a token has, or why that is not known.
#[derive(Debug)]
pub enum CountReply {
    Found(usize),
    Failed(String),
}

/// How many files one token has.
#[derive(Debug)]
pub struct Counted {
    pub token: String,
    pub reply: CountReply,
}

/// The mathematical value of a [`Counted`].
pub struct CountedV {
    pub token: Seq<char>,
    pub count: usize,
    pub status: Seq<char>,
}

impl View for Counted {
    type V = CountedV;

    open spec fn view(&self) -> CountedV {
        CountedV {
            token: self.token@,
            count: match self.reply {
                CountReply::Found(n) => n,
                CountReply::Failed(_) => 0,
            },
            status: match self.reply {
                CountReply::Found(_) => "ok"@,
                CountReply::Failed(e) => "error: "@ + e@,
            },
        }
    }
}

/// The values of a list of counts.
pub open spec fn counted_views(v: Seq<Counted>) -> Seq<CountedV> {
    v.map_values(|c: Counted| c@)
}

/// The counts added up.
pub open spec fn count_sum(counts: Seq<CountedV>) -> int
    decreases counts.len(),
{
    if counts.len() == 0 {
        0
    } else {
        count_sum(counts.drop_last()) + counts.last().count
    }
}

/// A count as it is shown; `masked` says whether the token is shown a second
/// time in the place of a masked one.
pub open spec fn detail_json(c: CountedV, masked: bool) -> JsonV {
    JsonV::Object(
        if masked {
            seq![
                ("token"@, JsonV::Str(c.token)),
                ("token_masked"@, JsonV::Str(c.token)),
                ("count"@, batch_tasks::count_model(c.count)),
                ("status"@, JsonV::Str(c.status)),
            ]
        } else {
            seq![
                ("token"@, JsonV::Str(c.token)),
                ("count"@, batch_tasks::count_model(c.count)),
                ("status"@, JsonV::Str(c.status)),
            ]
        },
    )
}

/// The counts as they are shown.
pub open spec fn details_of(counts: Seq<CountedV>, masked: bool) -> Seq<JsonV> {
    counts.map_values(|c: CountedV| detail_json(c, masked))
}

impl Counted {
    fn count(&self) -> (r: usize)
        ensures
            r == self@.count,
    {
        match self.reply {
            CountReply::Found(n) => n,
            CountReply::Failed(_) => 0,
        }
    }

    fn status(&self) -> (r: String)
        ensures
            r@ == self@.status,
    {
        match &self.reply {
            CountReply::Found(_) => String::from_str("ok"),
            CountReply::Failed(e) => text::joined("error: ", e.as_str()),
        }
    }

    /// The count as it is shown.
    pub fn detail(&self, masked: bool) -> (r: Json)
        ensures
            r@ == detail_json(self@, masked),
    {
        let mut f = Fields::new();
        f.add("token", json::text_value(self.token.as_str()));
        if masked {
            f.add("token_masked", json::text_value(self.token.as_str()));
        }
        f.add("count", json::count_value(self.count()));
        f.add("status", json::text_value(self.status().as_str()));
        proof {
            assert(f@ =~= detail_json(self@, masked)->Object_0);
        }
        f.object()
    }
}

/// The counts as they are shown.
pub fn details(counts: &Vec<Counted>, masked: bool) -> (r: Vec<Json>)
    ensures
        json::models(r@) == details_of(counted_views(counts@), masked),
{
    let ghost want = details_of(counted_views(counts@), masked);
    let mut out: Vec<Json> = Vec::new();
    let n: usize = counts.len();
    let mut i: usize = 0;
    while i < n
        invariant
            n == counts@.len(),
            i <= n,
            want == details_of(counted_views(counts@), masked),
            json::models(out@) =~= want.take(i as int),
        decreases n - i,
    {
        let ghost held = out@;
        let item = counts[i].detail(masked);
        out.push(item);
        proof {
            assert(json::models(out@) =~= json::models(held).push(item@));
        }
        i += 1;
    }
    proof {
        assert(json::models(out@) =~= want);
    }
    out
}

/// The counts added up.
pub fn total(counts: &Vec<Counted>) -> (r: usize)
    requires
        count_sum(counted_views(counts@)) <= usize::MAX,
    ensures
        r == count_sum(counted_views(counts@)),
{
    let ghost all = counted_views(counts@);
    let mut sum: usize = 0;
    let n: usize = counts.len();
    let mut i: usize = 0;
    proof {
        assert(all.take(0) =~= Seq::empty());
    }
    while i < n
        invariant
            n == counts@.len(),
            i <= n,
            all == counted_views(counts@),
            count_sum(all) <= usize::MAX,
            sum == count_sum(all.take(i as int)),
        decreases n - i,
    {
        proof {
            assert(all.take(i + 1).drop_last() =~= all.take(i as int));
            assert(all.take(i + 1).last() == counts@[i as int]@);
            lemma_sum_grows(all, i + 1);
        }
        sum = sum + counts[i].count();
        i += 1;
    }
    proof {
        assert(all.take(i as int) =~= all);
    }
    sum
}

proof fn lemma_sum_grows(counts: Seq<CountedV>, k: int)
    requires
        0 <= k <= counts.len(),
    ensures
        count_sum(counts.take(k)) <= count_sum(counts),
    decreases counts.len() - k,
{
    if k < counts.len() {
        lemma_sum_grows(counts, k + 1);
        assert(counts.take(k + 1).drop_last() =~= counts.take(k));
    } else {
        assert(counts.take(k) =~= counts);
    }
}

/// The count over several tokens, of which there are none where `none` holds.
pub open spec fn many_json(count: usize, none: bool) -> JsonV {
    JsonV::Object(
        seq![
            ("count"@, batch_tasks::count_model(count)),
            (
                "status"@,
                JsonV::Str(
                    if none {
                        "no_token"@
                    } else {
                        "ok"@
                    },
                ),
            ),
            ("token"@, JsonV::Null),
            ("last_asset_clear_at"@, JsonV::Null),
        ],
    )
}

/// The count over several tokens.
pub fn many_answer(count: usize, none: bool) -> (r: Json)
    ensures
        r@ == many_json(count, none),
{
    let status: &str = if none {
        "no_token"
    } else {
        "ok"
    };
    let mut f = Fields::new();
    f.add("count", json::count_value(count));
    f.add("status", json::text_value(status));
    f.add("token", Json::Null);
    f.add("last_asset_clear_at", Json::Null);
    proof {
        assert(f@ =~= many_json(count, none)->Object_0);
    }
    f.object()
}

/// The count of one token, or of nobody.
pub open spec fn one_json(count: usize, status: Seq<char>, token: Option<Seq<char>>) -> JsonV {
    JsonV::Object(
        seq![
            ("count"@, batch_tasks::count_model(count)),
            ("status"@, JsonV::Str(status)),
            ("token"@, json::opt_text_model(token)),
        ],
    )
}

fn one_answer(count: usize, status: &str, token: &Option<String>) -> (r: Json)
    ensures
        r@ == one_json(count, status@, text::text_opt(*token)),
{
    let mut f = Fields::new();
    f.add("count", json::count_value(count));
    f.add("status", json::text_value(status));
    f.add("token", json::opt_text_value(token));
    proof {
        assert(f@ =~= one_json(count, status@, text::text_opt(*token))->Object_0);
    }
    f.object()
}

/// What is said of the uploaded files: the counts, and each by itself.
#[derive(Debug)]
pub struct OnlineView {
    pub stats: Json,
    pub details: Vec<Json>,
    pub warning: Option<String>,
}

/// What is said of the uploaded files in a scope, with the counts of its tokens.
pub open spec fn stats_for(scope: OnlineScope, counts: Seq<CountedV>) -> JsonV {
    match scope {
        OnlineScope::Selected(_) => many_json(count_sum(counts) as usize, false),
        OnlineScope::All(s) => many_json(count_sum(counts) as usize, s.tokens@.len() == 0),
        OnlineScope::One(t) => one_json(counts[0].count, counts[0].status, Some(t@)),
        OnlineScope::NotLoaded => one_json(0, "not_loaded"@, None),
    }
}

/// The tokens in a scope.
pub open spec fn scope_len(scope: OnlineScope) -> nat {
    match scope {
        OnlineScope::Selected(s) => s.tokens@.len(),
        OnlineScope::All(s) => s.tokens@.len(),
        OnlineScope::One(_) => 1,
        OnlineScope::NotLoaded => 0,
    }
}

/// What is said of the uploaded files in a scope, with the counts of its tokens.
pub fn online_view(scope: &OnlineScope, counts: &Vec<Counted>) -> (r: OnlineView)
    requires
        counts@.len() == scope_len(*scope),
        count_sum(counted_views(counts@)) <= usize::MAX,
    ensures
        r.stats@ == stats_for(*scope, counted_views(counts@)),
        match *scope {
            OnlineScope::Selected(s) => json::models(r.details@) == details_of(
                counted_views(counts@),
                true,
            ) && text::text_opt(r.warning) == s.warning_text(),
            OnlineScope::All(s) => json::models(r.details@) == details_of(
                counted_views(counts@),
                true,
            ) && text::text_opt(r.warning) == s.warning_text(),
            _ => r.details@.len() == 0 && r.warning is None,
        },
{
    match scope {
        OnlineScope::Selected(s) => OnlineView {
            stats: many_answer(total(counts), false),
            details: details(counts, true),
            warning: s.warning(),
        },
        OnlineScope::All(s) => OnlineView {
            stats: many_answer(total(counts), s.tokens.len() == 0),
            details: details(counts, true),
            warning: s.warning(),
        },
        OnlineScope::One(t) => {
            proof {
                assert(counted_views(counts@)[0] == counts@[0]@);
            }
            let status = counts[0].status();
            OnlineView {
                stats: one_answer(counts[0].count(), status.as_str(), &Some(t.clone())),
                details: Vec::new(),
                warning: None,
            }
        },
        OnlineScope::NotLoaded => OnlineView {
            stats: one_answer(0, "not_loaded", &None),
            details: Vec::new(),
            warning: None,
        },
    }
}

/// All that is said of files.
pub open spec fn cache_json(
    local_image: JsonV,
    local_video: JsonV,
    online: JsonV,
    accounts: Seq<JsonV>,
    scope: Seq<char>,
    details: Seq<JsonV>,
    warning: Option<Seq<char>>,
) -> JsonV {
    JsonV::Object(
        answers::with_warning(
            seq![
                ("local_image"@, local_image),
                ("local_video"@, local_video),
                ("online"@, online),
                ("online_accounts"@, JsonV::Array(accounts)),
                ("online_scope"@, JsonV::Str(scope)),
                ("online_details"@, JsonV::Array(details)),
            ],
            warning,
        ),
    )
}

/// All that is said of files.
pub fn cache_answer(
    local_image: Json,
    local_video: Json,
    accounts: Vec<Json>,
    scope: &str,
    view: OnlineView,
) -> (r: Json)
    ensures
        r@ == cache_json(
            local_image@,
            local_video@,
            view.stats@,
            json::models(accounts@),
            scope@,
            json::models(view.details@),
            text::text_opt(view.warning),
        ),
{
    let ghost want = cache_json(
        local_image@,
        local_video@,
        view.stats@,
        json::models(accounts@),
        scope@,
        json::models(view.details@),
        None,
    )->Object_0;
    let mut f = Fields::new();
    f.add("local_image", local_image);
    f.add("local_video", local_video);
    f.add("online", view.stats);
    f.add("online_accounts", json::array(accounts));
    f.add("online_scope", json::text_value(scope));
    f.add("online_details", json::array(view.details));
    proof {
        assert(f@ =~= want);
    }
    answers::add_warning(&mut f, &view.warning);
    f.object()
}

/// What is said of uploaded files that were counted in the background.
pub fn loaded_view(selected: &Selection, counts: &Vec<Counted>) -> (r: OnlineView)
    requires
        count_sum(counted_views(counts@)) <= usize::MAX,
    ensures
        r.stats@ == many_json(
            count_sum(counted_views(counts@)) as usize,
            selected.tokens@.len() == 0,
        ),
        json::models(r.details@) == details_of(counted_views(counts@), false),
        text::text_opt(r.warning) == selected.warning_text(),
{
    OnlineView {
        stats: many_answer(total(counts), selected.tokens.len() == 0),
        details: details(counts, false),
        warning: selected.warning(),
    }
}

/// The scope as it is answered.
pub fn scope_name(scope: &Option<String>) -> (r: String)
    ensures
        r@ == (match scope {
            Some(s) => s@,
            None => "none"@,
        }),
{
    match scope {
        Some(s) => s.clone(),
        None => String::from_str("none"),
    }
}

/// The kind of files that is meant: images where nothing is said.
pub fn cache_kind(cache_type: &Option<String>) -> (r: String)
    ensures
        r@ == (match cache_type {
            Some(s) => s@,
            None => "image"@,
        }),
{
    match cache_type {
        Some(s) => s.clone(),
        None => String::from_str("image"),
    }
}

/// The page that is meant, and how long pages are.
pub fn page_of(page: Option<usize>, page_size: Option<usize>) -> (r: (usize, usize))
    ensures
        r.0 == (match page {
            Some(p) => p,
            None => 1,
        }),
        r.1 == (match page_size {
            Some(s) => s,
            None => 1000,
        }),
{
    let p: usize = match page {
        Some(p) => p,
        None => 1,
    };
    let s: usize = match page_size {
        Some(s) => s,
        None => 1000,
    };
    (p, s)
}

/// The value of a field, or null.
pub open spec fn field_or_null(v: JsonV, key: Seq<char>) -> JsonV {
    match v.field(key) {
        Some(j) => j,
        None => JsonV::Null,
    }
}

fn field_copy(v: &Json, key: &str) -> (r: Json)
    ensures
        r@ == field_or_null(v@, key@),
{
    match v.get(key) {
        Some(j) => j.clone(),
        None => Json::Null,
    }
}

/// A page of files as it is answered.
pub open spec fn page_json(result: JsonV) -> JsonV {
    JsonV::Object(
        seq![
            ("status"@, JsonV::Str("success"@)),
            ("total"@, field_or_null(result, "total"@)),
            ("page"@, field_or_null(result, "page"@)),
            ("page_size"@, field_or_null(result, "page_size"@)),
            ("items"@, field_or_null(result, "items"@)),
        ],
    )
}

/// A page of files as it is answered.
pub fn page_answer(result: &Json) -> (r: Json)
    ensures
        r@ == page_json(result@),
{
    let mut f = Fields::new();
    f.add("status", json::text_value("success"));
    f.add("total", field_copy(result, "total"));
    f.add("page", field_copy(result, "page"));
    f.add("page_size", field_copy(result, "page_size"));
    f.add("items", field_copy(result, "items"));
    proof {
        assert(f@ =~= page_json(result@)->Object_0);
    }
    f.object()
}

/// The name of the file that is to be deleted.
pub fn file_name(name: &Option<String>) -> (r: Result<String, ApiError>)
    ensures
        match r {
            Ok(s) => text::text_opt(*name) == Some(s@),
            Err(e) => name is None && e@ == exceptions::invalid_request_of("Missing file name"@),
        },
{
    match name {
        Some(s) => Ok(s.clone()),
        None => Err(ApiError::invalid_request("Missing file name")),
    }
}

/// The token whose assets are deleted where no list is given: the one that is
/// named, or else one that is handed out.
pub fn token_to_clear(named: &Option<String>, handed_out: &Option<String>) -> (r: Result<
    String,
    ApiError,
>)
    ensures
        ({
            let meant = if named is Some {
                text::text_opt(*named)
            } else {
                text::text_opt(*handed_out)
            };
            match r {
                Ok(s) => meant == Some(s@),
                Err(e) => meant is None && e@ == exceptions::invalid_request_of(
                    "No available token to perform cleanup"@,
                ),
            }
        }),
{
    match named {
        Some(s) => Ok(s.clone()),
        None => match handed_out {
            Some(s) => Ok(s.clone()),
            None => Err(ApiError::invalid_request("No available token to perform cleanup")),
        },
    }
}

} // verus!
