//! What the endpoints promise, said of requests and answers.
use vstd::prelude::*;
use vstd::utf8::*;

use crate::api::admin::accounts;
use crate::api::admin::answers;
use crate::api::admin::answers::EntryV;
use crate::api::admin::cache;
use crate::api::admin::cache::CountedV;
use crate::api::admin::selection;
use crate::api::admin::selection::Selection;
use crate::api::image;
use crate::api::image::{ImageOutputFormat, ImageRequest};
use crate::api::models;
use crate::json::{JsonV, Number};
use crate::seqs;
use crate::text;
use crate::text_laws;
use crate::token::models::{TokenStatus, TokenV};
use crate::token::pool::PoolV;
use crate::token::pool_laws;

verus! {

/// As many images are planned as are asked for, from one to ten; without a
/// number it is one.
pub proof fn law_how_many_images_are_planned(n: u32)
    ensures
        1 <= n <= 10 ==> image::count_of(Some(n)) == n,
        n < 1 ==> image::count_of(Some(n)) == 1,
        n > 10 ==> image::count_of(Some(n)) == 10,
        image::count_of(None) == 1,
{
}

/// A request for images is refused where they are switched off, where its
/// format is unknown, where the model is unknown or makes no images, where it
/// says nothing, and where more than two images are to be streamed; and
/// nowhere else. What is switched off is not found, and all else is a bad request.
pub proof fn law_which_requests_are_refused(
    req: ImageRequest,
    enabled: bool,
    config_format: Seq<char>,
    supports_images: Option<bool>,
)
    ensures
        ({
            let r = image::refusal(req, enabled, config_format, supports_images);
            let bad_format = image::format_for(text::text_opt(req.response_format), config_format)
                is None;
            let blank = text_laws::blank(req.prompt@);
            let too_many = req.stream == Some(true) && req.n is Some && req.n->0 > 2;
            &&& r is Some <==> !enabled || bad_format || supports_images != Some(true) || blank
                || too_many
            &&& !enabled ==> r->0.status == 404
            &&& enabled && r is Some ==> r->0.status == 400
            &&& enabled && bad_format ==> r->0.body.param == Some("response_format"@)
            &&& enabled && !bad_format && supports_images == Some(true) && blank
                ==> r->0.body.param == Some("prompt"@)
            &&& enabled && !bad_format && supports_images == Some(true) && !blank && too_many
                ==> r->0.body.param == Some("stream"@)
            &&& enabled && !bad_format && supports_images == Some(false) ==> r->0.body.code == Some(
                "model_not_supported"@,
            )
        }),
{
    lemma_blank(req.prompt@);
    if let Some(b) = supports_images {
        if b {
            assert(supports_images == Some(true));
        } else {
            assert(supports_images == Some(false));
        }
    }
}

proof fn lemma_blank(s: Seq<char>)
    ensures
        text::trim_of(s).len() == 0 <==> text_laws::blank(s),
{
    text_laws::law_trim(s);
    let t = text::trim_of(s);
    let (a, b) = choose|a: Seq<char>, b: Seq<char>|
        text_laws::blank(a) && text_laws::blank(b) && s == #[trigger] (a + t + b);
    if t.len() == 0 {
        assert forall|i: int| 0 <= i < s.len() implies text::is_white(#[trigger] s[i]) by {
            if i < a.len() {
                assert(s[i] == a[i]);
            } else {
                assert(s[i] == b[i - a.len()]);
            }
        }
    } else {
        assert(s[a.len() as int] == t[0]);
    }
}

/// The formats are known by their names, in any case and with white space
/// around them; without one it is what is configured, or else URLs.
pub proof fn law_formats(raw: Seq<char>, config: Seq<char>)
    ensures
        ({
            let name = text::ascii_lower_of(text::trim_of(raw));
            &&& image::format_of(raw) == Some(ImageOutputFormat::Url) <==> name == "url"@
            &&& image::format_of(raw) == Some(ImageOutputFormat::Base64) <==> name == "base64"@
                || name == "b64_json"@
        }),
        image::format_for(None, config) == (if image::format_of(config) is Some {
            image::format_of(config)
        } else {
            Some(ImageOutputFormat::Url)
        }),
        text::trim_of(raw).len() == 0 ==> image::format_for(Some(raw), config)
            == image::format_for(None, config),
        text::trim_of(raw).len() > 0 ==> image::format_for(Some(raw), config) == image::format_of(
            text::trim_of(raw),
        ),
{
    reveal_strlit("url");
    reveal_strlit("base64");
    reveal_strlit("b64_json");
    assert("url"@.len() == 3 && "base64"@.len() == 6 && "b64_json"@.len() == 8);
}

/// The images are made in calls of two, and one more where the number is odd.
pub proof fn law_calls(n: int, k: int)
    requires
        n >= 1,
        0 <= k < image::calls_for(n),
    ensures
        2 * image::calls_for(n) == n || 2 * image::calls_for(n) == n + 1,
        image::count_at(n, k) == (if k == image::calls_for(n) - 1 && n % 2 == 1 {
            1int
        } else {
            2
        }),
{
}

/// As many images are answered as were asked for: those that were made, and
/// an error in place of each that was not.
pub proof fn law_answers_are_complete(
    images: Seq<JsonV>,
    n: int,
    format: ImageOutputFormat,
    i: int,
)
    requires
        0 <= i < n,
    ensures
        image::filled_up(images, n, format).len() == n,
        i < images.len() ==> image::filled_up(images, n, format)[i] == images[i],
        i >= images.len() && format == ImageOutputFormat::Url ==> image::filled_up(
            images,
            n,
            format,
        )[i] == JsonV::Object(seq![("url"@, JsonV::Str("error"@))]),
        i >= images.len() && format == ImageOutputFormat::Base64 ==> image::filled_up(
            images,
            n,
            format,
        )[i] == JsonV::Object(seq![("b64_json"@, JsonV::Str("error"@))]),
{
}

/// Where more images were made than asked for, no image is answered twice.
pub proof fn law_no_image_is_answered_twice(
    images: Seq<JsonV>,
    order: Seq<usize>,
    i: int,
    j: int,
)
    requires
        images.len() <= usize::MAX,
        image::is_order(order, images.len()),
        0 <= i < j < order.len(),
    ensures
        order.len() == images.len(),
        order[i] != order[j],
        order[i] < images.len(),
        image::in_order(images, order)[i] == images[order[i] as int],
{
    let p = image::places(images.len());
    assert(p.no_duplicates());
    p.lemma_multiset_has_no_duplicates();
    assert(order.to_multiset() == p.to_multiset());
    order.lemma_multiset_has_no_duplicates_conv();
    assert(order.no_duplicates());
    assert(order.contains(order[i]));
    order.to_multiset_ensures();
    p.to_multiset_ensures();
    assert(order.to_multiset().count(order[i]) > 0);
    assert(p.contains(order[i]));
}

/// A request for explicit images is refused where they are switched off, where
/// it says nothing, and where it asks for none or for more than four; and
/// nowhere else.
pub proof fn law_which_explicit_requests_are_refused(
    req: ImageRequest,
    enabled: bool,
    nsfw_enabled: bool,
)
    ensures
        ({
            let r = image::nsfw_refusal(req, enabled, nsfw_enabled);
            let blank = text_laws::blank(req.prompt@);
            let off = !(enabled && nsfw_enabled);
            &&& r is None <==> !off && !blank && (req.n is None || 1 <= req.n->0 <= 4)
            &&& off ==> r->0.status == 404
            &&& !off && r is Some ==> r->0.status == 400
        }),
        image::streams(req.stream) <==> req.stream == Some(true),
{
    lemma_blank(req.prompt@);
}

/// The answer lists all images, in order, under the name that was asked for.
pub proof fn law_listed_images(key: Seq<char>, items: Seq<Seq<char>>, i: int)
    requires
        0 <= i < items.len(),
    ensures
        image::listed(key, items).len() == items.len(),
        image::listed(key, items)[i] == JsonV::Object(seq![(key, JsonV::Str(items[i]))]),
{
}

/// All models are listed, in order.
pub proof fn law_listed_models(ids: Seq<Seq<char>>, i: int)
    requires
        0 <= i < ids.len(),
    ensures
        ({
            let list = models::models_json(ids)->Object_0[1];
            &&& list.0 == "data"@ && list.1->Array_0.len() == ids.len()
            &&& list.1->Array_0[i]->Object_0[0] == ("id"@, JsonV::Str(ids[i]))
            &&& list.1->Array_0[i]->Object_0[1] == ("object"@, JsonV::Str("model"@))
            &&& list.1->Array_0[i]->Object_0[2] == (
                "created"@,
                JsonV::Number(Number::Unsigned(0)),
            )
        }),
{
}

/// The tokens that are named: the single one and then the listed ones.
pub proof fn law_named_tokens(token: Seq<char>, list: Seq<Seq<char>>)
    ensures
        selection::named_tokens(None, None).len() == 0,
        selection::named_tokens(Some(token), None) == seq![token],
        selection::named_tokens(None, Some(list)) == list,
        selection::named_tokens(Some(token), Some(list)) == seq![token] + list,
{
    assert(selection::named_tokens(Some(token), None) =~= seq![token]);
    assert(selection::named_tokens(None, Some(list)) =~= list);
}

/// Cleaning trims every token and drops those of which nothing is left.
pub proof fn law_cleaning(tokens: Seq<Seq<char>>)
    ensures
        selection::cleaned(tokens) == tokens.map_values(
            |t: Seq<char>| text::trim_of(t),
        ).filter(|t: Seq<char>| t.len() > 0),
    decreases tokens.len(),
{
    let trim = |t: Seq<char>| text::trim_of(t);
    let keep = |t: Seq<char>| t.len() > 0;
    let all = tokens.map_values(trim);
    if tokens.len() > 0 {
        law_cleaning(tokens.drop_last());
        let before = tokens.drop_last().map_values(trim);
        assert(all =~= before.push(text::trim_of(tokens.last())));
        seqs::lemma_filter_push(before, text::trim_of(tokens.last()), keep);
    } else {
        reveal(Seq::filter);
        assert(all.filter(keep) =~= Seq::empty());
    }
}

/// Of tokens that are repeated one right after the other one stays; no token
/// is lost.
pub proof fn law_squeezing(tokens: Seq<Seq<char>>, t: Seq<char>)
    ensures
        selection::squeezed(tokens).contains(t) <==> tokens.contains(t),
        tokens.len() > 0 && tokens.last() == t ==> selection::squeezed(tokens.push(t))
            == selection::squeezed(tokens),
        tokens.len() == 0 || tokens.last() != t ==> selection::squeezed(tokens.push(t))
            == selection::squeezed(tokens).push(t),
        selection::squeezed(tokens).len() <= tokens.len(),
    decreases tokens.len(),
{
    assert(tokens.push(t).drop_last() =~= tokens);
    if tokens.len() > 0 {
        assert(tokens.push(t)[tokens.len() - 1] == tokens.last());
        let before = tokens.drop_last();
        law_squeezing(before, t);
        let sq = selection::squeezed(before);
        let r = selection::squeezed(tokens);
        if tokens.contains(t) {
            let i = choose|i: int| 0 <= i < tokens.len() && tokens[i] == t;
            if i < before.len() {
                assert(before[i] == t);
                let j = choose|j: int| 0 <= j < sq.len() && sq[j] == t;
                assert(r[j] == t);
            } else if tokens.len() >= 2 && tokens[tokens.len() - 2] == t {
                assert(before[before.len() - 1] == t);
            } else {
                assert(r[sq.len() as int] == t);
            }
        }
        if r.contains(t) {
            let j = choose|j: int| 0 <= j < r.len() && r[j] == t;
            if j < sq.len() {
                assert(sq[j] == t);
                let i = choose|i: int| 0 <= i < before.len() && before[i] == t;
                assert(tokens[i] == t);
            } else {
                assert(tokens[tokens.len() - 1] == t);
            }
        }
    }
}

/// No more tokens are taken than allowed: the first ones, and all of them
/// where they are few enough. Where some are left out, that is told.
pub proof fn law_limits(s: Selection, tokens: Seq<Seq<char>>, max: usize, i: int)
    requires
        selection::selects(s, tokens, max),
        0 <= i < s.tokens@.len(),
    ensures
        ({
            let all = selection::squeezed(tokens);
            &&& s.tokens@[i]@ == all[i]
            &&& s.tokens@.len() == if all.len() > max {
                max as nat
            } else {
                all.len()
            }
            &&& s.original_count == all.len() && s.max_tokens == max
            &&& s.truncated <==> all.len() > max
        }),
{
    assert(text::texts(s.tokens@)[i] == s.tokens@[i]@);
    assert(text::texts(s.tokens@).len() == s.tokens@.len());
}

/// The results are counted by how they ended.
pub proof fn law_counts(entries: Seq<EntryV>, ok: bool)
    ensures
        answers::count_ok(entries, ok) == entries.filter(|e: EntryV| e.ok == ok).len(),
    decreases entries.len(),
{
    reveal(Seq::filter);
    if entries.len() > 0 {
        law_counts(entries.drop_last(), ok);
    }
}

/// Every token of every pool is listed, pool by pool, and so is every account
/// under its pool and its status.
pub proof fn law_all_tokens_are_listed(pools: Seq<PoolV>, k: int, i: int)
    requires
        0 <= k < pools.len(),
        0 <= i < pools[k].tokens.len(),
    ensures
        accounts::all_tokens(pools) == pool_laws::everything(pools).map_values(
            |t: TokenV| t.token,
        ),
        accounts::all_accounts(pools).len() == pool_laws::everything(pools).len(),
        accounts::all_accounts(pools).contains(
            accounts::account_json(pools[k].name, pools[k].tokens[i]),
        ),
        ({
            let a = accounts::account_json(pools[k].name, pools[k].tokens[i])->Object_0;
            let t = pools[k].tokens[i];
            &&& a[0] == ("token"@, JsonV::Str(t.token))
            &&& a[2] == ("pool"@, JsonV::Str(pools[k].name))
            &&& a[3].0 == "status"@
            &&& t.status == TokenStatus::Active ==> a[3].1 == JsonV::Str("active"@)
            &&& t.status == TokenStatus::Expired ==> a[3].1 == JsonV::Str("expired"@)
        }),
    decreases pools.len(),
{
    lemma_listed(pools);
    let before = pools.drop_last();
    let a = accounts::all_accounts(before);
    let b = accounts::pool_accounts(pools.last());
    let r = accounts::all_accounts(pools);
    let v = accounts::account_json(pools[k].name, pools[k].tokens[i]);
    if k < before.len() {
        law_all_tokens_are_listed(before, k, i);
        let j = choose|j: int| 0 <= j < a.len() && a[j] == v;
        assert(r[j] == v);
    } else {
        assert(b[i] == v);
        assert(r[a.len() + i] == v);
    }
}

proof fn lemma_listed(pools: Seq<PoolV>)
    ensures
        accounts::all_tokens(pools) == pool_laws::everything(pools).map_values(
            |t: TokenV| t.token,
        ),
        accounts::all_accounts(pools).len() == pool_laws::everything(pools).len(),
    decreases pools.len(),
{
    if pools.len() > 0 {
        lemma_listed(pools.drop_last());
        assert(accounts::all_tokens(pools) =~= pool_laws::everything(pools).map_values(
            |t: TokenV| t.token,
        ));
    } else {
        assert(accounts::all_tokens(pools) =~= pool_laws::everything(pools).map_values(
            |t: TokenV| t.token,
        ));
    }
}

/// What was counted is added up; what could not be counted counts nothing.
pub proof fn law_counted_assets(counts: Seq<CountedV>, c: CountedV)
    ensures
        cache::count_sum(Seq::empty()) == 0,
        cache::count_sum(counts.push(c)) == cache::count_sum(counts) + c.count,
{
    assert(counts.push(c).drop_last() =~= counts);
}

/// Tokens in a query are separated by commas, and cleaned.
pub proof fn law_query_tokens(a: Seq<char>, b: Seq<char>)
    ensures
        cache::query_tokens_of(Some(a.push(',') + b)) == cache::query_tokens_of(Some(a))
            + cache::query_tokens_of(Some(b)),
        !a.contains(',') && text::trim_of(a).len() > 0 ==> cache::query_tokens_of(Some(a)) == seq![
            text::trim_of(a),
        ],
        !a.contains(',') && text::trim_of(a).len() == 0 ==> cache::query_tokens_of(Some(a)).len()
            == 0,
        cache::query_tokens_of(None).len() == 0,
{
    let sep = text::is_char(',');
    text_laws::law_pieces(a, ',', b, sep);
    let x = text::pieces(a, sep);
    let y = text::pieces(b, sep);
    law_cleaning(x);
    law_cleaning(y);
    law_cleaning(x + y);
    let trim = |t: Seq<char>| text::trim_of(t);
    let keep = |t: Seq<char>| t.len() > 0;
    assert((x + y).map_values(trim) =~= x.map_values(trim) + y.map_values(trim));
    seqs::lemma_filter_concat(x.map_values(trim), y.map_values(trim), keep);
    if !a.contains(',') {
        assert forall|i: int| 0 <= i < a.len() implies !sep(#[trigger] a[i]) by {
            assert(a.contains(a[i]));
        }
        assert(x == seq![a]);
        reveal_with_fuel(selection::cleaned, 2);
        assert(x.drop_last() =~= Seq::empty());
        if text::trim_of(a).len() > 0 {
            assert(selection::cleaned(x) =~= seq![text::trim_of(a)]);
        }
    }
}

/// A long token is shown by its first eight bytes and its last ones only:
/// sixteen in lists of accounts, and eight in results. A short one is shown
/// as it is.
pub proof fn law_masks(token: Seq<char>)
    ensures
        ({
            let b = encode_utf8(token);
            let n = b.len() as int;
            let account = accounts::masked(
                token,
                accounts::ACCOUNT_LIMIT as int,
                accounts::ACCOUNT_TAIL as int,
            );
            let result = accounts::masked(
                token,
                answers::RESULT_LIMIT as int,
                answers::RESULT_TAIL as int,
            );
            &&& n <= 24 ==> account == token
            &&& n > 24 ==> account == decode_utf8(b.take(8)) + "..."@ + decode_utf8(
                b.skip(n - 16),
            )
            &&& n <= 20 ==> result == token
            &&& n > 20 ==> result == decode_utf8(b.take(8)) + "..."@ + decode_utf8(b.skip(n - 8))
        }),
{
    let b = encode_utf8(token);
    let n = b.len() as int;
    if n > 20 {
        assert(b.subrange(0, 8) =~= b.take(8));
        assert(b.subrange(n - 8, n) =~= b.skip(n - 8));
    }
    if n > 24 {
        assert(b.subrange(n - 16, n) =~= b.skip(n - 16));
    }
}

/// A summary tells how many there were, how many went well and how many did
/// not, and then every result.
pub proof fn law_summaries(total: usize, entries: Seq<EntryV>, warning: Option<Seq<char>>)
    requires
        entries.len() <= u64::MAX,
    ensures
        ({
            let f = answers::summary_json(total, entries, warning)->Object_0;
            let s = f[1].1->Object_0;
            let well = entries.filter(|e: EntryV| e.ok == true).len();
            let badly = entries.filter(|e: EntryV| e.ok == false).len();
            &&& f[0] == ("status"@, JsonV::Str("success"@)) && f[1].0 == "summary"@
            &&& s[0] == ("total"@, JsonV::Number(Number::Unsigned(total as u64)))
            &&& s[1] == ("ok"@, JsonV::Number(Number::Unsigned(well as u64)))
            &&& s[2] == ("fail"@, JsonV::Number(Number::Unsigned(badly as u64)))
            &&& well + badly == entries.len()
            &&& f[2] == ("results"@, JsonV::Object(answers::results_of(entries)))
            &&& warning matches Some(w) ==> f.len() == 4 && f[3] == (
                "warning"@,
                JsonV::Str(w),
            )
            &&& warning is None ==> f.len() == 3
        }),
{
    law_counts(entries, true);
    law_counts(entries, false);
    answers::law_summary_adds_up(entries);
}

/// Of what is counted upstream the sum is told; for a single account its own
/// count and status; and nothing was counted where nothing was asked for.
pub proof fn law_online_counts(scope: cache::OnlineScope, counts: Seq<CountedV>)
    requires
        0 <= cache::count_sum(counts) <= usize::MAX,
        counts.len() > 0,
    ensures
        ({
            let f = cache::stats_for(scope, counts)->Object_0;
            let sum = JsonV::Number(Number::Unsigned(cache::count_sum(counts) as u64));
            &&& f[0].0 == "count"@ && f[1].0 == "status"@ && f[2].0 == "token"@
            &&& scope is Selected ==> f[0].1 == sum && f[1].1 == JsonV::Str("ok"@)
            &&& scope matches cache::OnlineScope::All(s) ==> f[0].1 == sum && f[1].1 == JsonV::Str(
                if s.tokens@.len() == 0 {
                    "no_token"@
                } else {
                    "ok"@
                },
            )
            &&& scope matches cache::OnlineScope::One(t) ==> f[0].1 == JsonV::Number(
                Number::Unsigned(counts[0].count as u64),
            ) && f[1].1 == JsonV::Str(counts[0].status) && f[2].1 == JsonV::Str(t@)
            &&& scope is NotLoaded ==> f[0].1 == JsonV::Number(Number::Unsigned(0)) && f[1].1
                == JsonV::Str("not_loaded"@) && f[2].1 == JsonV::Null
        }),
{
}

/// Where all accounts are meant, the first of them are taken, repeated or not.
pub proof fn law_all_accounts_are_taken(s: Selection, tokens: Seq<Seq<char>>, max: usize, i: int)
    requires
        cache::takes(s, tokens, max),
        0 <= i < s.tokens@.len(),
    ensures
        s.tokens@[i]@ == tokens[i],
        s.tokens@.len() == if tokens.len() > max {
            max as nat
        } else {
            tokens.len()
        },
        s.original_count == tokens.len() && s.max_tokens == max,
        s.truncated <==> tokens.len() > max,
{
    assert(text::texts(s.tokens@)[i] == s.tokens@[i]@);
    assert(text::texts(s.tokens@).len() == s.tokens@.len());
}

/// An answer with images tells when they were made and then lists them.
pub proof fn law_image_answers(created: i64, data: Seq<JsonV>)
    ensures
        ({
            let f = image::images_json(created, data)->Object_0;
            let d = image::done_json(created, data)->Object_0;
            &&& f[0] == ("created"@, JsonV::Number(Number::of_int(created))) && d[0] == f[0]
            &&& f[1] == ("data"@, JsonV::Array(data)) && d[1] == f[1]
            &&& f[2].0 == "usage"@ && d.len() == 2
            &&& f[2].1->Object_0[0] == (
                "prompt_tokens"@,
                JsonV::Number(Number::Unsigned(0)),
            )
        }),
{
}

} // verus!
